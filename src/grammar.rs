use vstd::prelude::*;

verus! {

/// The characters that `char::is_whitespace` accepts: those with the
/// Unicode `White_Space` property.
pub open spec fn is_space(c: char) -> bool {
    let n = c as u32;
    (0x09 <= n && n <= 0x0d) || n == 0x20 || n == 0x85 || n == 0xa0 || n == 0x1680 || (0x2000
        <= n && n <= 0x200a) || n == 0x2028 || n == 0x2029 || n == 0x202f || n == 0x205f || n
        == 0x3000
}

pub open spec fn is_line_end(c: char) -> bool {
    c == '\r' || c == '\n'
}

/// What a scan over a line stops at.
#[derive(Clone, Copy, PartialEq, Eq, Debug)]
pub enum Stop {
    /// whitespace
    Space,
    /// anything but whitespace
    Text,
    /// `=` or `;`: the end of a tag key
    KeyEnd,
    /// `;`
    Semicolon,
    /// `!`
    Bang,
    /// `\r` or `\n`
    LineEnd,
    /// anything but `\r` and `\n`
    Content,
}

pub open spec fn stops_at(m: Stop, c: char) -> bool {
    match m {
        Stop::Space => is_space(c),
        Stop::Text => !is_space(c),
        Stop::KeyEnd => c == '=' || c == ';',
        Stop::Semicolon => c == ';',
        Stop::Bang => c == '!',
        Stop::LineEnd => is_line_end(c),
        Stop::Content => !is_line_end(c),
    }
}

/// The first index at or after `i` whose character `m` stops at, or the
/// length of `s` where there is none.
pub open spec fn first_from(s: Seq<char>, i: int, m: Stop) -> int
    decreases s.len() - i,
{
    if i >= s.len() {
        s.len() as int
    } else if stops_at(m, s[i]) {
        i
    } else {
        first_from(s, i + 1, m)
    }
}

pub proof fn lemma_first_from_bounds(s: Seq<char>, i: int, m: Stop)
    requires
        0 <= i,
    ensures
        i <= s.len() ==> i <= first_from(s, i, m) <= s.len(),
        i > s.len() ==> first_from(s, i, m) == s.len(),
        first_from(s, i, m) < s.len() ==> stops_at(m, s[first_from(s, i, m)]),
        forall|j: int| i <= j < first_from(s, i, m) ==> !stops_at(m, #[trigger] s[j]),
    decreases s.len() - i,
{
    if i < s.len() && !stops_at(m, s[i]) {
        lemma_first_from_bounds(s, i + 1, m);
    }
}

/// A scan is pinned down by what it passes over and where it ends.
pub proof fn lemma_first_from_at(s: Seq<char>, i: int, k: int, m: Stop)
    requires
        0 <= i <= k <= s.len(),
        forall|j: int| i <= j < k ==> !stops_at(m, #[trigger] s[j]),
        k == s.len() || stops_at(m, s[k]),
    ensures
        first_from(s, i, m) == k,
    decreases k - i,
{
    if i < k {
        lemma_first_from_at(s, i + 1, k, m);
    }
}

pub fn is_space_char(c: char) -> (r: bool)
    ensures
        r == is_space(c),
{
    let n = c as u32;
    (0x09 <= n && n <= 0x0d) || n == 0x20 || n == 0x85 || n == 0xa0 || n == 0x1680 || (0x2000
        <= n && n <= 0x200a) || n == 0x2028 || n == 0x2029 || n == 0x202f || n == 0x205f || n
        == 0x3000
}

pub fn stops_at_char(m: Stop, c: char) -> (r: bool)
    ensures
        r == stops_at(m, c),
{
    match m {
        Stop::Space => is_space_char(c),
        Stop::Text => !is_space_char(c),
        Stop::KeyEnd => c == '=' || c == ';',
        Stop::Semicolon => c == ';',
        Stop::Bang => c == '!',
        Stop::LineEnd => c == '\r' || c == '\n',
        Stop::Content => !(c == '\r' || c == '\n'),
    }
}

/// Index of the first character at or after `i` that `m` stops at.
pub fn scan(v: &Vec<char>, i: usize, m: Stop) -> (r: usize)
    requires
        i <= v@.len(),
    ensures
        r == first_from(v@, i as int, m),
        i <= r <= v@.len(),
{
    let mut k: usize = i;
    while k < v.len() && !stops_at_char(m, v[k])
        invariant
            i <= k <= v@.len(),
            forall|j: int| i <= j < k ==> !stops_at(m, #[trigger] v@[j]),
        decreases v@.len() - k,
    {
        k = k + 1;
    }
    proof {
        lemma_first_from_at(v@, i as int, k as int, m);
    }
    k
}

/// What one parsed line holds, over character sequences.
pub struct RawLine {
    pub tags: Seq<(Seq<char>, Seq<char>)>,
    pub prefix: Option<Seq<char>>,
    pub command_name: Seq<char>,
    pub command_params: Seq<Seq<char>>,
}

/// Why a line or a record was refused.
#[derive(Clone, Copy, PartialEq, Eq, Debug)]
pub enum IrcError {
    /// The line holds no command name.
    MissingCommandName,
    /// A `PRIVMSG` came without a sender prefix.
    MissingPrefix,
    /// A `PRIVMSG` came with fewer than two parameters.
    MissingBody,
}

/// The index just past the delimiter at `k`, or `k` at the end of `s`.
pub open spec fn past(s: Seq<char>, k: int) -> int {
    if k < s.len() {
        k + 1
    } else {
        k
    }
}

/// Whether the piece of a tag blob that starts at `i` is a `key=value`
/// pair: a non-empty key ended by `=`.
pub open spec fn pair_at(b: Seq<char>, i: int) -> bool {
    let k = first_from(b, i, Stop::KeyEnd);
    i < k < b.len() && b[k] == '='
}

/// The `key=value` pairs of a tag blob from index `i`, split on `;`, up to
/// the first piece with an empty key or without `=`.
pub open spec fn tags_from(b: Seq<char>, i: int) -> Seq<(Seq<char>, Seq<char>)>
    decreases b.len() - i,
    via tags_from_decreases
{
    if i < 0 {
        seq![]
    } else {
        let k = first_from(b, i, Stop::KeyEnd);
        if !pair_at(b, i) {
            seq![]
        } else {
            let vs = k + 1;
            let ve = first_from(b, vs, Stop::Semicolon);
            seq![(b.subrange(i, k), b.subrange(vs, ve))] + tags_from(b, past(b, ve))
        }
    }
}

#[via_fn]
proof fn tags_from_decreases(b: Seq<char>, i: int) {
    if i >= 0 {
        lemma_first_from_bounds(b, i, Stop::KeyEnd);
        let k = first_from(b, i, Stop::KeyEnd);
        if pair_at(b, i) {
            lemma_first_from_bounds(b, k + 1, Stop::Semicolon);
        }
    }
}

/// The parameters that start at index `q`: a parameter introduced by `:`
/// runs to the line end and is the last; any other runs to the next
/// whitespace, and a run of line-end characters after it is skipped.
pub open spec fn params_from(s: Seq<char>, q: int) -> Seq<Seq<char>>
    decreases s.len() - q,
    via params_from_decreases
{
    if q < 0 || q >= s.len() {
        seq![]
    } else if s[q] == ':' {
        seq![s.subrange(q + 1, first_from(s, q + 1, Stop::LineEnd))]
    } else {
        let t = first_from(s, q, Stop::Space);
        seq![s.subrange(q, t)] + params_from(s, first_from(s, past(s, t), Stop::Content))
    }
}

#[via_fn]
proof fn params_from_decreases(s: Seq<char>, q: int) {
    if 0 <= q < s.len() && s[q] != ':' {
        lemma_first_from_bounds(s, q, Stop::Space);
        let t = first_from(s, q, Stop::Space);
        lemma_first_from_bounds(s, past(s, t), Stop::Content);
    }
}

pub open spec fn has_tags(s: Seq<char>) -> bool {
    s.len() > 0 && s[0] == '@'
}

/// End of the tag blob (0 without one).
pub open spec fn tags_end(s: Seq<char>) -> int {
    if has_tags(s) {
        first_from(s, 1, Stop::Space)
    } else {
        0
    }
}

pub open spec fn line_tags(s: Seq<char>) -> Seq<(Seq<char>, Seq<char>)> {
    if has_tags(s) {
        tags_from(s.subrange(1, tags_end(s)), 0)
    } else {
        seq![]
    }
}

/// Start of what follows the tags.
pub open spec fn prefix_start(s: Seq<char>) -> int {
    first_from(s, tags_end(s), Stop::Text)
}

pub open spec fn has_prefix(s: Seq<char>) -> bool {
    prefix_start(s) < s.len() && s[prefix_start(s)] == ':'
}

pub open spec fn prefix_end(s: Seq<char>) -> int {
    if has_prefix(s) {
        first_from(s, prefix_start(s) + 1, Stop::Space)
    } else {
        prefix_start(s)
    }
}

pub open spec fn line_prefix(s: Seq<char>) -> Option<Seq<char>> {
    if has_prefix(s) {
        Some(s.subrange(prefix_start(s) + 1, prefix_end(s)))
    } else {
        None
    }
}

pub open spec fn command_start(s: Seq<char>) -> int {
    first_from(s, prefix_end(s), Stop::Text)
}

pub open spec fn command_end(s: Seq<char>) -> int {
    first_from(s, command_start(s), Stop::Space)
}

/// The record that a line parses to, or why it has none.
pub open spec fn parse_line(s: Seq<char>) -> Result<RawLine, IrcError> {
    if command_start(s) == command_end(s) {
        Err(IrcError::MissingCommandName)
    } else {
        Ok(
            RawLine {
                tags: line_tags(s),
                prefix: line_prefix(s),
                command_name: s.subrange(command_start(s), command_end(s)),
                command_params: params_from(s, past(s, command_end(s))),
            },
        )
    }
}

} // verus!
