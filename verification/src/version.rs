//! Semantic-version handling for propagation: bumping the patch component of
//! a dot-separated `major.minor.patch` string, with the fallback form
//! `<input>.0.1` for strings that do not have three dot-separated parts.

use vstd::prelude::*;
use crate::text::{split_seq, split_str, lemma_split_parts_clean, lemma_split_glue,
    lemma_split_whole};
use crate::numbers::{dec_digits, digits_value, parse_u32_or_zero, parse_u32_or_zero_spec,
    u64_to_string, lemma_dec_digits_wf, is_digit};

verus! {

/// The version string that results from bumping the patch component of `s`:
/// with at least three dot-separated parts, the first two parts followed by
/// the incremented third part (later parts are dropped, and an unparsable
/// third part counts as zero); with fewer, the input followed by `.0.1`.
pub open spec fn increment_patch_spec(s: Seq<char>) -> Seq<char> {
    let parts = split_seq(s, '.');
    if parts.len() >= 3 {
        parts[0] + seq!['.'] + parts[1] + seq!['.'] + dec_digits(
            (parse_u32_or_zero_spec(parts[2]) + 1) as nat,
        )
    } else {
        s + seq!['.', '0', '.', '1']
    }
}

/// Bumps the patch component of a dot-separated version string.
pub fn increment_patch_version(version: &str) -> (r: String)
    ensures
        r@ == increment_patch_spec(version@),
{
    let parts = split_str(version, '.');
    proof {
        reveal_strlit(".");
        reveal_strlit(".0.1");
    }
    if parts.len() >= 3 {
        let mut r: String = parts[0].clone();
        r.append(".");
        r.append(parts[1].as_str());
        r.append(".");
        let patch = parse_u32_or_zero(parts[2].as_str());
        let bumped = u64_to_string(patch as u64 + 1);
        r.append(bumped.as_str());
        proof {
            let sp = split_seq(version@, '.');
            assert(parts.deep_view()[0] == sp[0]);
            assert(parts.deep_view()[1] == sp[1]);
            assert(parts.deep_view()[2] == sp[2]);
            assert(".".view() =~= seq!['.']);
            assert(r@ =~= sp[0] + seq!['.'] + sp[1] + seq!['.'] + dec_digits(
                (parse_u32_or_zero_spec(sp[2]) + 1) as nat,
            ));
        }
        r
    } else {
        let mut r: String = version.to_owned();
        r.append(".0.1");
        proof {
            assert(".0.1".view() =~= seq!['.', '0', '.', '1']);
            assert(r@ =~= version@ + seq!['.', '0', '.', '1']);
        }
        r
    }
}

/// For a version string with at least three dot-separated parts, bumping the
/// patch keeps the major and minor parts, and the new third part is the
/// numeral of the old patch value plus one; nothing follows it.
pub proof fn lemma_increment_patch_parts(s: Seq<char>)
    requires
        split_seq(s, '.').len() >= 3,
    ensures
        split_seq(increment_patch_spec(s), '.').len() == 3,
        split_seq(increment_patch_spec(s), '.')[0] == split_seq(s, '.')[0],
        split_seq(increment_patch_spec(s), '.')[1] == split_seq(s, '.')[1],
        digits_value(split_seq(increment_patch_spec(s), '.')[2]) == parse_u32_or_zero_spec(
            split_seq(s, '.')[2],
        ) + 1,
{
    let parts = split_seq(s, '.');
    let a = parts[0];
    let b = parts[1];
    let c = dec_digits((parse_u32_or_zero_spec(parts[2]) + 1) as nat);
    lemma_split_parts_clean(s, '.');
    lemma_dec_digits_wf((parse_u32_or_zero_spec(parts[2]) + 1) as nat);
    assert forall|j: int| 0 <= j < c.len() implies c[j] != '.' by {
        assert(is_digit(c[j]));
    }
    lemma_split_whole(c, '.');
    assert forall|j: int| 0 <= j < (b + seq!['.'] + c).len() implies (b + seq!['.'] + c)[j]
        != '.' || j == b.len() by {}
    lemma_split_glue(b, c, '.');
    let tail = b + seq!['.'] + c;
    lemma_split_glue(a, tail, '.');
    assert(increment_patch_spec(s) =~= a + seq!['.'] + tail);
    assert(split_seq(increment_patch_spec(s), '.') == seq![a] + (seq![b] + seq![c]));
    assert(split_seq(increment_patch_spec(s), '.')[2] == c);
}

/// For a version string with fewer than three dot-separated parts, the result
/// is exactly the input followed by `.0.1`.
pub proof fn lemma_increment_patch_fallback(s: Seq<char>)
    requires
        split_seq(s, '.').len() < 3,
    ensures
        increment_patch_spec(s) == s + seq!['.', '0', '.', '1'],
{
}

} // verus!
