//! Selection of the CPU temperature source among the hardware-monitor
//! entries: the device whose declared name is `coretemp`, and within it the
//! lexicographically first entry whose path holds the input marker.

use crate::text::{contains_seq, lemma_lex_le_refl, lemma_lex_le_total, lemma_lex_le_trans, lex_le, spec_trim,
    str_contains, str_lex_le, str_eq, trim_str};
use vstd::prelude::*;

verus! {

/// Whether the content of a device's name attribute declares the CPU
/// temperature device: its trimmed text is exactly `coretemp`.
pub fn is_coretemp_name(content: &str) -> (r: bool)
    ensures
        r == (spec_trim(content@) == "coretemp"@),
{
    let t = trim_str(content);
    str_eq(t.as_str(), "coretemp")
}

/// Whether `path` is a temperature input entry: it holds the marker
/// `_input`.
pub open spec fn spec_is_temp_input(path: Seq<char>) -> bool {
    contains_seq(path, "_input"@)
}

/// Picks the temperature input file among a device's entry paths: the
/// lexicographically first path holding the input marker, or `None` when no
/// entry holds it.
pub fn pick_temp_input(paths: &Vec<String>) -> (r: Option<String>)
    ensures
        r is Some <==> exists|k: int| 0 <= k < paths@.len() && spec_is_temp_input(paths@[k]@),
        r matches Some(p) ==> spec_is_temp_input(p@) && (exists|k: int|
            0 <= k < paths@.len() && paths@[k]@ == p@) && (forall|k: int|
            0 <= k < paths@.len() && spec_is_temp_input(#[trigger] paths@[k]@) ==> lex_le(
                p@,
                paths@[k]@,
            )),
{
    let mut best: Option<String> = None;
    let mut i: usize = 0;
    while i < paths.len()
        invariant
            0 <= i <= paths@.len(),
            best is Some <==> exists|k: int| 0 <= k < i && spec_is_temp_input(paths@[k]@),
            best matches Some(p) ==> spec_is_temp_input(p@) && (exists|k: int|
                0 <= k < i && paths@[k]@ == p@) && (forall|k: int|
                0 <= k < i && spec_is_temp_input(#[trigger] paths@[k]@) ==> lex_le(p@, paths@[k]@)),
        decreases paths@.len() - i,
    {
        if str_contains(paths[i].as_str(), "_input") {
            match &best {
                None => {
                    best = Some(paths[i].clone());
                    proof {
                        lemma_lex_le_refl(paths@[i as int]@);
                    }
                },
                Some(b) => {
                    if str_lex_le(paths[i].as_str(), b.as_str()) {
                        let ghost bv = b@;
                        best = Some(paths[i].clone());
                        proof {
                            assert forall|k: int|
                                0 <= k < i + 1 && spec_is_temp_input(
                                    #[trigger] paths@[k]@,
                                ) implies lex_le(paths@[i as int]@, paths@[k]@) by {
                                if k < i {
                                    lemma_lex_le_trans(paths@[i as int]@, bv, paths@[k]@);
                                } else {
                                    lemma_lex_le_refl(paths@[i as int]@);
                                }
                            }
                        }
                    } else {
                        proof {
                            lemma_lex_le_total(b@, paths@[i as int]@);
                        }
                    }
                },
            }
        }
        i = i + 1;
    }
    best
}

} // verus!
