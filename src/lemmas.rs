use vstd::prelude::*;
use crate::grammar::{
    command_end, command_start, first_from, has_prefix, has_tags, is_line_end, is_space, lemma_first_from_at, lemma_first_from_bounds, line_prefix, pair_at, stops_at, line_tags, params_from, parse_line, past, prefix_start, tags_end, tags_from, IrcError, RawLine, Stop,
};
use crate::irc::{map_raw, privmsg_word, receive_decision, StepModel};

verus! {

/// Tag pairs written out as on the wire: `key=value` joined by `;`.
pub open spec fn tag_text(pairs: Seq<(Seq<char>, Seq<char>)>) -> Seq<char>
    decreases pairs.len(),
{
    if pairs.len() == 0 {
        seq![]
    } else if pairs.len() == 1 {
        pairs[0].0 + seq!['='] + pairs[0].1
    } else {
        pairs[0].0 + seq!['='] + pairs[0].1 + seq![';'] + tag_text(pairs.drop_first())
    }
}

/// A pair that reads back as itself: a non-empty key without `=` or `;`, a
/// value without `;`, neither with whitespace.
pub open spec fn well_formed_tag(p: (Seq<char>, Seq<char>)) -> bool {
    &&& p.0.len() > 0
    &&& forall|j: int|
        0 <= j < p.0.len() ==> !is_space(#[trigger] p.0[j]) && p.0[j] != '=' && p.0[j] != ';'
    &&& forall|j: int| 0 <= j < p.1.len() ==> !is_space(#[trigger] p.1[j]) && p.1[j] != ';'
}

proof fn lemma_tag_text_no_space(pairs: Seq<(Seq<char>, Seq<char>)>)
    requires
        forall|i: int| 0 <= i < pairs.len() ==> well_formed_tag(#[trigger] pairs[i]),
    ensures
        forall|j: int| 0 <= j < tag_text(pairs).len() ==> !is_space(#[trigger] tag_text(pairs)[j]),
    decreases pairs.len(),
{
    if pairs.len() > 0 {
        let p = pairs[0];
        assert(well_formed_tag(p));
        let kv = p.0 + seq!['='] + p.1;
        assert forall|j: int| 0 <= j < kv.len() implies !is_space(#[trigger] kv[j]) by {
            if j < p.0.len() {
                assert(kv[j] == p.0[j]);
            } else if j > p.0.len() {
                assert(kv[j] == p.1[j - p.0.len() - 1]);
            }
        }
        if pairs.len() > 1 {
            let rest = pairs.drop_first();
            assert forall|i: int| 0 <= i < rest.len() implies well_formed_tag(#[trigger] rest[i]) by {
                assert(rest[i] == pairs[i + 1]);
            }
            lemma_tag_text_no_space(rest);
            let t = tag_text(pairs);
            assert(t == kv + seq![';'] + tag_text(rest));
            assert forall|j: int| 0 <= j < t.len() implies !is_space(#[trigger] t[j]) by {
                if j < kv.len() {
                    assert(t[j] == kv[j]);
                } else if j > kv.len() {
                    assert(t[j] == tag_text(rest)[j - kv.len() - 1]);
                }
            }
        }
    }
}

/// A scan over `a + x` from inside `x` is the scan over `x`, shifted.
proof fn lemma_first_from_shift(a: Seq<char>, x: Seq<char>, i: int, m: Stop)
    requires
        0 <= i,
    ensures
        first_from(a + x, a.len() + i, m) == a.len() + first_from(x, i, m),
    decreases x.len() - i,
{
    if i < x.len() {
        assert((a + x)[a.len() + i] == x[i]);
        if !stops_at(m, x[i]) {
            lemma_first_from_shift(a, x, i + 1, m);
        }
    }
}

/// What may follow the last well-formed pair in a blob: nothing, or `;` and
/// then a piece that is no pair (empty key, or no `=`). Where there is no
/// pair at all, the blob may also start with such a piece.
pub open spec fn ends_tags(no_pairs: bool, tail: Seq<char>) -> bool {
    ||| tail.len() == 0
    ||| tail[0] == ';' && !pair_at(tail.drop_first(), 0)
    ||| no_pairs && !pair_at(tail, 0)
}

proof fn lemma_tags_from_text(
    x: Seq<char>,
    pairs: Seq<(Seq<char>, Seq<char>)>,
    tail: Seq<char>,
)
    requires
        forall|i: int| 0 <= i < pairs.len() ==> well_formed_tag(#[trigger] pairs[i]),
        ends_tags(pairs.len() == 0, tail),
    ensures
        tags_from(x + tag_text(pairs) + tail, x.len() as int) == pairs,
    decreases pairs.len(),
{
    let b = x + tag_text(pairs) + tail;
    let i = x.len() as int;
    if pairs.len() == 0 {
        assert(b =~= x + tail);
        lemma_first_from_shift(x, tail, 0, Stop::KeyEnd);
        if tail.len() > 0 && tail[0] == ';' {
            lemma_first_from_at(tail, 0, 0, Stop::KeyEnd);
        }
        lemma_first_from_bounds(tail, 0, Stop::KeyEnd);
        let kt = first_from(tail, 0, Stop::KeyEnd);
        if kt < tail.len() {
            assert(b[i + kt] == tail[kt]);
        }
        assert(!pair_at(b, i));
        assert(tags_from(b, i) =~= pairs);
    } else {
        let p = pairs[0];
        assert(well_formed_tag(p));
        let k = p.0;
        let v = p.1;
        let kv = k + seq!['='] + v;
        let after = if pairs.len() == 1 {
            tail
        } else {
            seq![';'] + tag_text(pairs.drop_first()) + tail
        };
        assert(b =~= x + kv + after);
        assert forall|j: int| i <= j < i + k.len() implies !stops_at(
            Stop::KeyEnd,
            #[trigger] b[j],
        ) by {
            assert(b[j] == k[j - i]);
        }
        assert(b[i + k.len()] == '=');
        lemma_first_from_at(b, i, i + k.len(), Stop::KeyEnd);
        assert(pair_at(b, i));
        let vs = i + k.len() + 1;
        let ve = vs + v.len();
        assert forall|j: int| vs <= j < ve implies #[trigger] b[j] != ';' by {
            assert(b[j] == v[j - vs]);
        }
        assert(ve == b.len() || b[ve] == ';');
        lemma_first_from_at(b, vs, ve, Stop::Semicolon);
        assert(b.subrange(i, i + k.len()) =~= k);
        assert(b.subrange(vs, ve) =~= v);
        let x2 = x + kv + seq![';'];
        if pairs.len() == 1 {
            if tail.len() == 0 {
                lemma_first_from_at(b, ve, ve, Stop::KeyEnd);
                assert(tags_from(b, ve) =~= seq![]);
            } else {
                let t2 = tail.drop_first();
                assert(b =~= x2 + tag_text(seq![]) + t2);
                lemma_tags_from_text(x2, seq![], t2);
            }
            assert(tags_from(b, i) =~= pairs);
        } else {
            let rest = pairs.drop_first();
            assert forall|n: int| 0 <= n < rest.len() implies well_formed_tag(#[trigger] rest[n]) by {
                assert(rest[n] == pairs[n + 1]);
            }
            assert(b =~= x2 + tag_text(rest) + tail);
            lemma_tags_from_text(x2, rest, tail);
            assert(tags_from(b, i) =~= seq![(k, v)] + rest);
            assert(seq![(k, v)] + rest =~= pairs);
        }
    }
}

/// A tag segment written from well-formed pairs, possibly followed by a
/// piece that is no pair, parses to exactly those pairs: as many, in the
/// same order, with their values verbatim.
pub proof fn lemma_tags_round_trip(
    pairs: Seq<(Seq<char>, Seq<char>)>,
    tail: Seq<char>,
    rest: Seq<char>,
)
    requires
        forall|i: int| 0 <= i < pairs.len() ==> well_formed_tag(#[trigger] pairs[i]),
        ends_tags(pairs.len() == 0, tail),
        forall|j: int| 0 <= j < tail.len() ==> !is_space(#[trigger] tail[j]),
        rest.len() == 0 || is_space(rest[0]),
    ensures
        line_tags(seq!['@'] + tag_text(pairs) + tail + rest) == pairs,
        parse_line(seq!['@'] + tag_text(pairs) + tail + rest) matches Ok(raw) ==> raw.tags
            == pairs,
{
    let t = tag_text(pairs) + tail;
    let s = seq!['@'] + tag_text(pairs) + tail + rest;
    assert(s =~= seq!['@'] + t + rest);
    lemma_tag_text_no_space(pairs);
    assert forall|j: int| 1 <= j < 1 + t.len() implies !is_space(#[trigger] s[j]) by {
        assert(s[j] == t[j - 1]);
        if j - 1 >= tag_text(pairs).len() {
            assert(t[j - 1] == tail[j - 1 - tag_text(pairs).len()]);
        }
    }
    lemma_first_from_at(s, 1, 1 + t.len() as int, Stop::Space);
    assert(has_tags(s));
    assert(s.subrange(1, tags_end(s)) =~= seq![] + tag_text(pairs) + tail);
    lemma_tags_from_text(seq![], pairs, tail);
}

/// A line that starts with neither `@` nor (after whitespace) `:` has no
/// tags and no prefix.
pub proof fn lemma_plain_line(s: Seq<char>)
    requires
        !(s.len() > 0 && s[0] == '@'),
        !(first_from(s, 0, Stop::Text) < s.len() && s[first_from(s, 0, Stop::Text)] == ':'),
    ensures
        line_tags(s).len() == 0,
        line_prefix(s) is None,
        parse_line(s) matches Ok(raw) ==> raw.tags.len() == 0 && raw.prefix is None,
{
    assert(!has_tags(s));
    assert(prefix_start(s) == first_from(s, 0, Stop::Text));
}

/// An empty or all-whitespace line has no command name.
pub proof fn lemma_blank_line(s: Seq<char>)
    requires
        forall|i: int| 0 <= i < s.len() ==> is_space(#[trigger] s[i]),
    ensures
        parse_line(s) == Err::<RawLine, IrcError>(IrcError::MissingCommandName),
{
    if s.len() > 0 {
        assert(is_space(s[0]));
    }
    assert(!has_tags(s));
    lemma_first_from_at(s, 0, s.len() as int, Stop::Text);
    assert(!has_prefix(s));
    lemma_first_from_at(s, s.len() as int, s.len() as int, Stop::Text);
    lemma_first_from_at(s, s.len() as int, s.len() as int, Stop::Space);
    assert(command_start(s) == command_end(s));
}

/// A scan from the start of `part` in `a + part + z` stops at its end, when
/// nothing in `part` stops it and `z` is empty or starts with a stop.
proof fn lemma_scan_over(s: Seq<char>, a: Seq<char>, part: Seq<char>, z: Seq<char>, m: Stop)
    requires
        s == a + part + z,
        forall|j: int| 0 <= j < part.len() ==> !stops_at(m, #[trigger] part[j]),
        z.len() == 0 || stops_at(m, z[0]),
    ensures
        first_from(s, a.len() as int, m) == (a.len() + part.len()) as int,
        s.subrange(a.len() as int, (a.len() + part.len()) as int) == part,
{
    assert forall|j: int| a.len() <= j < a.len() + part.len() implies !stops_at(
        m,
        #[trigger] s[j],
    ) by {
        assert(s[j] == part[j - a.len()]);
    }
    if z.len() > 0 {
        assert(s[(a.len() + part.len()) as int] == z[0]);
    }
    lemma_first_from_at(s, a.len() as int, (a.len() + part.len()) as int, m);
    assert(s.subrange(a.len() as int, (a.len() + part.len()) as int) =~= part);
}

/// A middle parameter: non-empty, without whitespace, not starting with `:`.
pub open spec fn middle_word(m: Seq<char>) -> bool {
    &&& m.len() > 0
    &&& m[0] != ':'
    &&& forall|j: int| 0 <= j < m.len() ==> !is_space(#[trigger] m[j])
}

/// Middle parameters, each followed by one space.
pub open spec fn middle_text(ms: Seq<Seq<char>>) -> Seq<char>
    decreases ms.len(),
{
    if ms.len() == 0 {
        seq![]
    } else {
        ms[0] + seq![' '] + middle_text(ms.drop_first())
    }
}

/// A word without whitespace.
pub open spec fn word(w: Seq<char>) -> bool {
    forall|j: int| 0 <= j < w.len() ==> !is_space(#[trigger] w[j])
}

/// Text without `\r` or `\n`.
pub open spec fn one_line(t: Seq<char>) -> bool {
    forall|j: int| 0 <= j < t.len() ==> !is_line_end(#[trigger] t[j])
}

/// Nothing, `\n` or `\r\n`.
pub open spec fn line_terminator(end: Seq<char>) -> bool {
    end == Seq::<char>::empty() || end == seq!['\n'] || end == seq!['\r', '\n']
}

proof fn lemma_params_trailing(
    x: Seq<char>,
    ms: Seq<Seq<char>>,
    t: Seq<char>,
    end: Seq<char>,
)
    requires
        forall|i: int| 0 <= i < ms.len() ==> middle_word(#[trigger] ms[i]),
        one_line(t),
        line_terminator(end),
    ensures
        params_from(x + middle_text(ms) + seq![':'] + t + end, x.len() as int) == ms + seq![t],
    decreases ms.len(),
{
    let s = x + middle_text(ms) + seq![':'] + t + end;
    let i = x.len() as int;
    if ms.len() == 0 {
        assert(s =~= (x + seq![':']) + t + end);
        assert(s[i] == ':');
        assert forall|j: int| 0 <= j < t.len() implies !stops_at(Stop::LineEnd, #[trigger] t[j]) by {
            assert(!is_line_end(t[j]));
        }
        lemma_scan_over(s, x + seq![':'], t, end, Stop::LineEnd);
        assert(params_from(s, i) =~= ms + seq![t]);
    } else {
        let m0 = ms[0];
        let rest = ms.drop_first();
        assert(middle_word(m0));
        let z = seq![' '] + middle_text(rest) + seq![':'] + t + end;
        assert(s =~= x + m0 + z);
        assert(s[i] == m0[0]);
        lemma_scan_over(s, x, m0, z, Stop::Space);
        let x2 = x + m0 + seq![' '];
        let z2 = middle_text(rest) + seq![':'] + t + end;
        assert(s =~= x2 + Seq::<char>::empty() + z2);
        if rest.len() > 0 {
            assert(middle_word(rest[0]));
            assert(z2[0] == rest[0][0]);
            assert(!is_space(rest[0][0]));
        } else {
            assert(z2[0] == ':');
        }
        lemma_scan_over(s, x2, Seq::<char>::empty(), z2, Stop::Content);
        assert forall|n: int| 0 <= n < rest.len() implies middle_word(#[trigger] rest[n]) by {
            assert(rest[n] == ms[n + 1]);
        }
        assert(s =~= x2 + middle_text(rest) + seq![':'] + t + end);
        lemma_params_trailing(x2, rest, t, end);
        assert(params_from(s, i) =~= seq![m0] + (rest + seq![t]));
        assert(seq![m0] + (rest + seq![t]) =~= ms + seq![t]);
    }
}

pub open spec fn tag_segment(tags: Option<Seq<char>>) -> Seq<char> {
    match tags {
        Some(b) => seq!['@'] + b + seq![' '],
        None => seq![],
    }
}

pub open spec fn prefix_segment(prefix: Option<Seq<char>>) -> Seq<char> {
    match prefix {
        Some(p) => seq![':'] + p + seq![' '],
        None => seq![],
    }
}

proof fn lemma_after_tags(tags: Option<Seq<char>>, r: Seq<char>)
    requires
        tags matches Some(b) ==> word(b),
        r.len() > 0,
        !is_space(r[0]),
        tags is None ==> r[0] != '@',
    ensures
        prefix_start(tag_segment(tags) + r) == tag_segment(tags).len(),
{
    let s = tag_segment(tags) + r;
    match tags {
        Some(b) => {
            assert(s[0] == '@');
            assert(forall|j: int| 0 <= j < b.len() ==> !stops_at(Stop::Space, #[trigger] b[j]));
            assert(s =~= seq!['@'] + b + (seq![' '] + r));
            lemma_scan_over(s, seq!['@'], b, seq![' '] + r, Stop::Space);
            assert(s =~= (seq!['@'] + b) + seq![' '] + r);
            lemma_scan_over(s, seq!['@'] + b, seq![' '], r, Stop::Text);
        },
        None => {
            assert(s =~= r);
            assert(!has_tags(s));
            assert(s =~= Seq::<char>::empty() + Seq::<char>::empty() + r);
            lemma_scan_over(s, Seq::<char>::empty(), Seq::<char>::empty(), r, Stop::Text);
        },
    }
}

proof fn lemma_after_prefix(a: Seq<char>, prefix: Option<Seq<char>>, r: Seq<char>)
    requires
        prefix_start(a + prefix_segment(prefix) + r) == a.len(),
        prefix matches Some(p) ==> word(p),
        r.len() > 0,
        !is_space(r[0]),
        r[0] != ':',
    ensures
        line_prefix(a + prefix_segment(prefix) + r) == prefix,
        command_start(a + prefix_segment(prefix) + r) == a.len() + prefix_segment(prefix).len(),
{
    let s = a + prefix_segment(prefix) + r;
    let h0 = a.len() as int;
    match prefix {
        Some(p) => {
            assert(s[h0] == ':');
            assert(has_prefix(s));
            assert(forall|j: int| 0 <= j < p.len() ==> !stops_at(Stop::Space, #[trigger] p[j]));
            assert(s =~= (a + seq![':']) + p + (seq![' '] + r));
            lemma_scan_over(s, a + seq![':'], p, seq![' '] + r, Stop::Space);
            assert(s =~= (a + seq![':'] + p) + seq![' '] + r);
            lemma_scan_over(s, a + seq![':'] + p, seq![' '], r, Stop::Text);
        },
        None => {
            assert(s[h0] == r[0]);
            assert(!has_prefix(s));
            assert(s =~= a + Seq::<char>::empty() + r);
            lemma_scan_over(s, a, Seq::<char>::empty(), r, Stop::Text);
        },
    }
}

/// In any line, with or without tags and a prefix, after any middle
/// parameters, a parameter introduced by `:` is the last one and keeps
/// everything up to the line terminator verbatim, spaces and `:` included;
/// with nothing after the `:` it is the empty parameter. This holds with no
/// terminator, with `\n` and with `\r\n`.
#[verifier::rlimit(60)]
pub proof fn lemma_trailing_param(
    tags: Option<Seq<char>>,
    prefix: Option<Seq<char>>,
    c: Seq<char>,
    ms: Seq<Seq<char>>,
    t: Seq<char>,
    end: Seq<char>,
)
    requires
        tags matches Some(b) ==> word(b),
        prefix matches Some(p) ==> word(p),
        c.len() > 0,
        word(c),
        c[0] != ':',
        tags is None && prefix is None ==> c[0] != '@',
        forall|i: int| 0 <= i < ms.len() ==> middle_word(#[trigger] ms[i]),
        one_line(t),
        line_terminator(end),
    ensures
        parse_line(
            tag_segment(tags) + prefix_segment(prefix) + c + seq![' '] + middle_text(ms) + seq![
                ':',
            ] + t + end,
        ) matches Ok(raw) && raw.command_name == c && raw.prefix == prefix && raw.command_params
            == ms + seq![t],
{
    let tp = tag_segment(tags);
    let pp = prefix_segment(prefix);
    let after = seq![' '] + middle_text(ms) + seq![':'] + t + end;
    let tail = c + after;
    let s = tp + pp + c + seq![' '] + middle_text(ms) + seq![':'] + t + end;
    assert(s =~= tp + (pp + tail));
    assert(!is_space(c[0]));
    if pp.len() > 0 {
        assert((pp + tail)[0] == ':');
    } else {
        assert((pp + tail)[0] == c[0]);
    }
    lemma_after_tags(tags, pp + tail);
    assert(s =~= tp + pp + tail);
    lemma_after_prefix(tp, prefix, tail);
    let h1 = (tp.len() + pp.len()) as int;
    assert(s =~= (tp + pp) + c + after);
    assert(forall|j: int| 0 <= j < c.len() ==> !stops_at(Stop::Space, #[trigger] c[j]));
    lemma_scan_over(s, tp + pp, c, after, Stop::Space);
    assert(command_end(s) == h1 + c.len());
    assert(past(s, h1 + c.len()) == h1 + c.len() + 1);
    let x = tp + pp + c + seq![' '];
    assert(s =~= x + middle_text(ms) + seq![':'] + t + end);
    lemma_params_trailing(x, ms, t, end);
}

/// `PRIVMSG` without a prefix or with fewer than two parameters is refused;
/// every other command maps to no event and no error.
pub proof fn lemma_mapping_outcomes(raw: RawLine)
    ensures
        raw.command_name == privmsg_word() && raw.prefix is None ==> map_raw(raw) == Err::<
            Option<crate::irc::MessageModel>,
            IrcError,
        >(IrcError::MissingPrefix),
        raw.command_name == privmsg_word() && raw.prefix is Some && raw.command_params.len() < 2
            ==> map_raw(raw) == Err::<Option<crate::irc::MessageModel>, IrcError>(
            IrcError::MissingBody,
        ),
        raw.command_name != privmsg_word() ==> map_raw(raw) == Ok::<
            Option<crate::irc::MessageModel>,
            IrcError,
        >(None),
{
}

/// A zero-length read means the stream is closed, whatever the line buffer
/// holds, and it does so again on every later read.
pub proof fn lemma_closed_stream(line: Seq<char>, later: Seq<char>)
    ensures
        receive_decision(0, line) == Ok::<StepModel, IrcError>(StepModel::Closed),
        receive_decision(0, later) == receive_decision(0, line),
{
}

} // verus!
