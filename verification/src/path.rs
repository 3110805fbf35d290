//! Paths of archive entries: segments, parent directories and placeholder paths.
//!
//! A path is a sequence of characters in which `/` separates the segments. Every
//! function here splits exactly at the separators: an empty segment is a segment.

use vstd::prelude::*;

verus! {

/// The separator between the segments of an entry path.
pub const SEPARATOR: char = '/';

/// The digits that a hash is written with in a placeholder path.
pub const HEX_DIGITS: &'static str = "0123456789abcdef";

/// The directory that entries without a known path are put under.
pub const PLACEHOLDER_DIRECTORY: &'static str = "unknown/";

/// Where the last segment of `p` starts: behind its last separator, or at 0.
pub open spec fn segment_start(p: Seq<char>) -> int
    decreases p.len(),
{
    if p.len() == 0 {
        0
    } else if p.last() == SEPARATOR {
        p.len() as int
    } else {
        segment_start(p.drop_last())
    }
}

/// The last segment of `p`: the name of the entry.
pub open spec fn last_segment(p: Seq<char>) -> Seq<char> {
    p.subrange(segment_start(p), p.len() as int)
}

/// The path of the directory that holds `p`, or `None` where `p` has a single segment.
pub open spec fn parent_path(p: Seq<char>) -> Option<Seq<char>> {
    if segment_start(p) == 0 {
        None
    } else {
        Some(p.subrange(0, segment_start(p) - 1))
    }
}

/// The paths of the directories above `p`, outermost first: one for each separator of
/// `p`, made of what stands before it.
pub open spec fn dir_prefixes(p: Seq<char>) -> Seq<Seq<char>>
    decreases p.len(),
{
    if p.len() == 0 {
        Seq::empty()
    } else if p.last() == SEPARATOR {
        dir_prefixes(p.drop_last()).push(p.drop_last())
    } else {
        dir_prefixes(p.drop_last())
    }
}

/// The number of segments of `p`.
pub open spec fn depth(p: Seq<char>) -> nat {
    dir_prefixes(p).len() + 1
}

/// `segment_start` stays inside the path, and a separator stands right before it.
pub proof fn lemma_segment_start(p: Seq<char>)
    ensures
        0 <= segment_start(p) <= p.len(),
        segment_start(p) > 0 ==> p[segment_start(p) - 1] == SEPARATOR,
        forall|k: int| segment_start(p) <= k < p.len() ==> p[k] != SEPARATOR,
    decreases p.len(),
{
    if p.len() > 0 && p.last() != SEPARATOR {
        lemma_segment_start(p.drop_last());
        assert forall|k: int| segment_start(p) <= k < p.len() implies p[k] != SEPARATOR by {
            if k < p.len() - 1 {
                assert(p.drop_last()[k] == p[k]);
            }
        }
    }
}

/// A path without separators has no directory above it, and the last of the directories
/// above a path is its parent.
pub proof fn lemma_dir_prefixes(p: Seq<char>)
    ensures
        forall|k: int| 0 <= k < dir_prefixes(p).len() ==> (#[trigger] dir_prefixes(p)[k]).len() < p.len(),
        match parent_path(p) {
            None => dir_prefixes(p).len() == 0,
            Some(q) => dir_prefixes(p).len() > 0 && dir_prefixes(p).last() == q && dir_prefixes(
                p,
            ).drop_last() == dir_prefixes(q),
        },
    decreases p.len(),
{
    if p.len() > 0 {
        lemma_dir_prefixes(p.drop_last());
        lemma_segment_start(p);
        lemma_segment_start(p.drop_last());
        if p.last() == SEPARATOR {
            assert(p.subrange(0, segment_start(p) - 1) == p.drop_last());
            assert(dir_prefixes(p).drop_last() == dir_prefixes(p.drop_last()));
        } else {
            if segment_start(p) > 0 {
                assert(p.subrange(0, segment_start(p) - 1) == p.drop_last().subrange(
                    0,
                    segment_start(p.drop_last()) - 1,
                ));
            }
        }
    }
}

/// The depth of a path is one more than that of its parent.
pub proof fn lemma_depth(p: Seq<char>)
    ensures
        match parent_path(p) {
            None => depth(p) == 1,
            Some(q) => depth(p) == depth(q) + 1,
        },
{
    lemma_dir_prefixes(p);
}

/// The hexadecimal digit of the value `d`, as a text of one character.
pub open spec fn hex_digit(d: int) -> Seq<char> {
    "0123456789abcdef"@.subrange(d, d + 1)
}

/// The number `v` written with `digits` hexadecimal digits, the most significant
/// first; digits beyond those are cut off.
pub open spec fn hex_of(v: nat, digits: nat) -> Seq<char>
    decreases digits,
{
    if digits == 0 {
        Seq::empty()
    } else {
        hex_of(v / 16, (digits - 1) as nat) + hex_digit((v % 16) as int)
    }
}

/// The path that stands for an entry whose hash no table knows: the placeholder
/// directory, then the hash in sixteen hexadecimal digits.
pub open spec fn placeholder_path(hash: u64) -> Seq<char> {
    "unknown/"@ + hex_of(hash as nat, 16)
}

fn append_hex(out: &mut String, v: u64, digits: u8)
    ensures
        final(out)@ == old(out)@ + hex_of(v as nat, digits as nat),
    decreases digits,
{
    if digits > 0 {
        append_hex(out, v / 16, digits - 1);
        let d: usize = (v % 16) as usize;
        proof {
            reveal_strlit("0123456789abcdef");
        }
        out.append(HEX_DIGITS.substring_char(d, d + 1));
    }
}

/// The placeholder path of `hash`.
pub fn placeholder(hash: u64) -> (r: String)
    ensures
        r@ == placeholder_path(hash),
{
    let mut out = String::from_str(PLACEHOLDER_DIRECTORY);
    append_hex(&mut out, hash, 16);
    out
}

/// The number of values that `digits` hexadecimal digits can spell.
pub open spec fn hex_range(digits: nat) -> nat
    decreases digits,
{
    if digits == 0 {
        1
    } else {
        16 * hex_range((digits - 1) as nat)
    }
}

/// A number written in hexadecimal has as many characters as digits were asked for.
pub proof fn lemma_hex_len(v: nat, digits: nat)
    ensures
        hex_of(v, digits).len() == digits,
    decreases digits,
{
    if digits > 0 {
        lemma_hex_len(v / 16, (digits - 1) as nat);
        reveal_strlit("0123456789abcdef");
    }
}

/// Two numbers that fit into the digits and are written alike are one number.
pub proof fn lemma_hex_distinct(a: nat, b: nat, digits: nat)
    requires
        a < hex_range(digits),
        b < hex_range(digits),
        hex_of(a, digits) == hex_of(b, digits),
    ensures
        a == b,
    decreases digits,
{
    if digits > 0 {
        let before = (digits - 1) as nat;
        let x = hex_of(a, digits);
        let y = hex_of(b, digits);
        reveal_strlit("0123456789abcdef");
        let da = (a % 16) as int;
        let db = (b % 16) as int;
        lemma_hex_len(a / 16, before);
        lemma_hex_len(b / 16, before);
        assert(hex_digit(da).len() == 1);
        assert(hex_digit(db).len() == 1);
        assert(x.drop_last() =~= hex_of(a / 16, before));
        assert(y.drop_last() =~= hex_of(b / 16, before));
        lemma_hex_distinct(a / 16, b / 16, before);
        assert(x.last() == hex_digit(da)[0]);
        assert(y.last() == hex_digit(db)[0]);
        assert(hex_digit(da)[0] == "0123456789abcdef"@[da]);
        assert(hex_digit(db)[0] == "0123456789abcdef"@[db]);
        assert(da == db);
    }
}

/// Placeholder paths keep entries apart: two hashes with one placeholder path are one
/// hash.
pub proof fn law_placeholders_distinct(a: u64, b: u64)
    requires
        placeholder_path(a) == placeholder_path(b),
    ensures
        a == b,
{
    let prefix = "unknown/"@;
    let x = hex_of(a as nat, 16);
    let y = hex_of(b as nat, 16);
    lemma_hex_len(a as nat, 16);
    lemma_hex_len(b as nat, 16);
    assert(x =~= (prefix + x).subrange(prefix.len() as int, prefix.len() as int + 16));
    assert(y =~= (prefix + y).subrange(prefix.len() as int, prefix.len() as int + 16));
    assert(hex_range(16) == 0x1_0000_0000_0000_0000) by {
        reveal_with_fuel(hex_range, 17);
    }
    lemma_hex_distinct(a as nat, b as nat, 16);
}

/// Whether `c` separates the parts of a file-system path: a slash either way.
pub open spec fn is_path_separator(c: char) -> bool {
    c == '/' || c == '\\'
}

/// Where the file name in the file-system path `p` starts: behind its last slash of
/// either kind, or at 0.
pub open spec fn file_name_start(p: Seq<char>) -> int
    decreases p.len(),
{
    if p.len() == 0 {
        0
    } else if is_path_separator(p.last()) {
        p.len() as int
    } else {
        file_name_start(p.drop_last())
    }
}

/// The file name in the file-system path `p`: what stands behind its last slash.
pub open spec fn file_name_of(p: Seq<char>) -> Seq<char> {
    p.subrange(file_name_start(p), p.len() as int)
}

/// The file name in the file-system path `path`.
pub fn file_name(path: &str) -> (r: String)
    ensures
        r@ == file_name_of(path@),
{
    let n = path.unicode_len();
    let ghost p = path@;
    let mut start: usize = 0;
    let mut i: usize = 0;
    assert(p.subrange(0, 0) =~= Seq::<char>::empty());
    for c in it: path.chars()
        invariant
            n == p.len(),
            p == path@,
            it.seq() == p,
            i == it.index(),
            start <= i,
            start == file_name_start(p.subrange(0, i as int)),
    {
        assert(p.subrange(0, i + 1).drop_last() =~= p.subrange(0, i as int));
        assert(p.subrange(0, i + 1).last() == c);
        if c == '/' || c == '\\' {
            start = i + 1;
        }
        i = i + 1;
    }
    assert(p.subrange(0, n as int) =~= p);
    path.substring_char(start, n).to_owned()
}

} // verus!
