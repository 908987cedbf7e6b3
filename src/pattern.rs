//! Loading of the suffix pattern set from the lines of a pattern source.
use vstd::prelude::*;
use vstd::string::StringSliceAdditionalSpecFns;

verus! {

/// What `str::trim` returns for a string: it depends on the characters alone.
pub uninterp spec fn trim_of(s: Seq<char>) -> Seq<char>;

/// What `str::to_uppercase` returns for a string: it depends on the characters alone.
pub uninterp spec fn upper_of(s: Seq<char>) -> Seq<char>;

/// Relies on `str::trim`: leading and trailing whitespace removed, so what
/// is left is a contiguous part of the string.
#[verifier::external_body]
fn trim(s: &str) -> (r: &str)
    ensures
        r@ == trim_of(s@),
        r@.len() <= s@.len() && exists|a: int| 0 <= a <= s@.len() - r@.len() && r@ == #[trigger] s@.subrange(a, a + r@.len()),
{
    s.trim()
}

/// Relies on `str::to_uppercase`: the uppercase form of the string.
#[verifier::external_body]
fn to_uppercase(s: &str) -> (r: String)
    ensures
        r@ == upper_of(s@),
{
    s.to_uppercase()
}

/// Patterns of at most this many bytes are dropped.
pub const SHORT_PATTERN_LEN: usize = 4;

/// The pattern that stands in for an empty set.
pub open spec fn default_pattern() -> Seq<char> {
    seq!['A', 'B', 'C', 'D', 'E', 'F']
}

/// A line as a pattern: trimmed, then uppercased.
pub open spec fn normalized(line: Seq<char>) -> Seq<char> {
    upper_of(trim_of(line))
}

/// The length of a line in bytes of its UTF-8 encoding.
pub open spec fn byte_len(p: Seq<char>) -> nat {
    vstd::utf8::encode_utf8(p).len()
}

/// A normalized line too short to be a pattern, though not empty.
pub open spec fn is_short(p: Seq<char>) -> bool {
    1 <= byte_len(p) <= SHORT_PATTERN_LEN
}

/// The normalized form of each line.
pub open spec fn normalized_lines(lines: Seq<Seq<char>>) -> Seq<Seq<char>> {
    Seq::new(lines.len(), |i: int| normalized(lines[i]))
}

/// The lines long enough to be patterns, in their order.
pub open spec fn kept_patterns(ps: Seq<Seq<char>>) -> Seq<Seq<char>>
    decreases ps.len(),
{
    if ps.len() == 0 {
        Seq::empty()
    } else {
        let rest = kept_patterns(ps.drop_last());
        if byte_len(ps.last()) > SHORT_PATTERN_LEN {
            rest.push(ps.last())
        } else {
            rest
        }
    }
}

/// The pattern set for some normalized lines: the kept patterns, or the
/// default pattern alone where none is kept.
pub open spec fn pattern_set(ps: Seq<Seq<char>>) -> Seq<Seq<char>> {
    let kept = kept_patterns(ps);
    if kept.len() == 0 {
        seq![default_pattern()]
    } else {
        kept
    }
}

/// Some line is too short to be a pattern, though not empty.
pub open spec fn has_short(ps: Seq<Seq<char>>) -> bool {
    exists|i: int| 0 <= i < ps.len() && is_short(#[trigger] ps[i])
}

/// The views of some strings.
pub open spec fn views(v: Seq<String>) -> Seq<Seq<char>> {
    Seq::new(v.len(), |i: int| v[i]@)
}

/// A loaded pattern set, with what the loader noticed on the way.
pub struct PatternLoad {
    /// The patterns, each longer than `SHORT_PATTERN_LEN` bytes.
    pub patterns: Vec<String>,
    /// Some non-empty line was too short and was dropped.
    pub short_pattern_warning: bool,
    /// No line gave a pattern, so the default pattern stands alone.
    pub used_default: bool,
}

/// The default pattern as a string.
pub fn default_pattern_string() -> (r: String)
    ensures
        r@ == default_pattern(),
{
    let r = String::from_str("ABCDEF");
    proof {
        reveal_strlit("ABCDEF");
    }
    assert(r@ =~= default_pattern());
    r
}

/// Builds the pattern set from lines already trimmed and uppercased: empty
/// lines are ignored; lines of one to `SHORT_PATTERN_LEN` bytes are
/// dropped with a warning; where nothing is left, the default pattern is the
/// only one.
pub fn select_patterns(ps: &Vec<String>) -> (r: PatternLoad)
    ensures
        views(r.patterns@) == pattern_set(views(ps@)),
        r.short_pattern_warning == has_short(views(ps@)),
        r.used_default == (kept_patterns(views(ps@)).len() == 0),
{
    let ghost ls = views(ps@);
    let mut patterns: Vec<String> = Vec::new();
    let mut short = false;
    let mut i: usize = 0;
    let n = ps.len();
    while i < n
        invariant
            n == ps@.len(),
            ls == views(ps@),
            i <= n,
            views(patterns@) == kept_patterns(ls.subrange(0, i as int)),
            short == has_short(ls.subrange(0, i as int)),
        decreases n - i,
    {
        let p = ps[i].clone();
        let ghost pre = ls.subrange(0, i as int);
        let ghost next = ls.subrange(0, i + 1);
        assert(next.drop_last() =~= pre);
        assert(next.last() == p@);
        let text = p.as_str();
        let len = text.as_bytes().len();
        assert(len == byte_len(p@)) by {
            assert(text@ == p@);
            assert(text.spec_bytes() == vstd::utf8::encode_utf8(text@));
        }
        if len > SHORT_PATTERN_LEN {
            patterns.push(p);
            assert(views(patterns@) =~= kept_patterns(pre).push(next.last()));
        } else if len >= 1 {
            short = true;
            assert(is_short(next[i as int]));
        }
        assert(has_short(next) == (has_short(pre) || is_short(next[i as int]))) by {
            if has_short(next) {
                let j = choose|j: int| 0 <= j < next.len() && is_short(#[trigger] next[j]);
                if j < i {
                    assert(pre[j] == next[j]);
                }
            }
            if has_short(pre) {
                let j = choose|j: int| 0 <= j < pre.len() && is_short(#[trigger] pre[j]);
                assert(pre[j] == next[j]);
            }
        }
        i += 1;
    }
    assert(ls.subrange(0, n as int) =~= ls);
    let used_default = patterns.len() == 0;
    if used_default {
        patterns.push(default_pattern_string());
        assert(views(patterns@) =~= seq![default_pattern()]);
    }
    PatternLoad { patterns, short_pattern_warning: short, used_default }
}

/// Builds the pattern set from the lines of a pattern source: each line is
/// trimmed and uppercased, then the patterns are selected from them.
pub fn parse_pattern_lines(lines: &Vec<String>) -> (r: PatternLoad)
    ensures
        views(r.patterns@) == pattern_set(normalized_lines(views(lines@))),
        r.short_pattern_warning == has_short(normalized_lines(views(lines@))),
        r.used_default == (kept_patterns(normalized_lines(views(lines@))).len() == 0),
{
    let mut ps: Vec<String> = Vec::new();
    let mut i: usize = 0;
    while i < lines.len()
        invariant
            i <= lines@.len(),
            ps@.len() == i,
            forall|j: int| 0 <= j < i ==> (#[trigger] ps@[j])@ == normalized(lines@[j]@),
        decreases lines@.len() - i,
    {
        let t = trim(lines[i].as_str());
        ps.push(to_uppercase(t));
        i += 1;
    }
    assert(views(ps@) =~= normalized_lines(views(lines@)));
    select_patterns(&ps)
}

} // verus!
