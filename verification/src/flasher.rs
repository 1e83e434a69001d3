//! Flashing: which files of a ROM directory are programmed, and what a flash
//! run reports.
use vstd::prelude::*;

use crate::device::string_views;
use crate::text::{
    chars_le, chars_of, decimal, decimal_string, ends_with, ends_with_chars, find_chars,
    first_occurrence, lemma_text_le_facts, lemma_text_order_total, text_le, text_order,
};

verus! {

broadcast use vstd::seq_lib::to_multiset_build, vstd::seq_lib::to_multiset_insert;

/// A file of a ROM directory that a flash run uses for `pattern`: its name
/// contains `pattern` and ends with `.xml`.
pub open spec fn is_flash_file_name(name: Seq<char>, pattern: Seq<char>) -> bool {
    first_occurrence(name, pattern) is Some && ends_with(name, ".xml"@)
}

/// Whether a file of a ROM directory is one that a flash run uses for
/// `pattern`.
pub fn is_flash_file(name: &str, pattern: &str) -> (r: bool)
    ensures
        r == is_flash_file_name(name@, pattern@),
{
    let cs = chars_of(name);
    find_chars(&cs, pattern).is_some() && ends_with_chars(&cs, ".xml")
}

/// The names among `names` that a flash run uses for `pattern`, in the
/// order given.
pub open spec fn flash_candidates(names: Seq<Seq<char>>, pattern: Seq<char>) -> Seq<Seq<char>>
    decreases names.len(),
{
    if names.len() == 0 {
        seq![]
    } else {
        let before = flash_candidates(names.drop_last(), pattern);
        if is_flash_file_name(names.last(), pattern) {
            before.push(names.last())
        } else {
            before
        }
    }
}

/// Texts in [`text_le`] order.
pub open spec fn texts_sorted(s: Seq<Seq<char>>) -> bool {
    forall|i: int, j: int| 0 <= i < j < s.len() ==> text_le(#[trigger] s[i], #[trigger] s[j])
}

/// The names of the regular files of a ROM directory that a flash run uses
/// for `pattern`, sorted as paths in one directory sort: by the bytes of
/// their names.
pub fn select_flash_files(names: &Vec<String>, pattern: &str) -> (r: Vec<String>)
    ensures
        texts_sorted(string_views(r@)),
        string_views(r@).to_multiset() == flash_candidates(
            string_views(names@),
            pattern@,
        ).to_multiset(),
{
    let mut r: Vec<String> = Vec::new();
    let mut k: usize = 0;
    assert(string_views(names@).take(0) =~= Seq::<Seq<char>>::empty());
    assert(string_views(r@) =~= Seq::<Seq<char>>::empty());
    while k < names.len()
        invariant
            k <= names@.len(),
            texts_sorted(string_views(r@)),
            string_views(r@).to_multiset() == flash_candidates(
                string_views(names@).take(k as int),
                pattern@,
            ).to_multiset(),
        decreases names@.len() - k,
    {
        let name = &names[k];
        let ghost upto = string_views(names@).take(k + 1);
        assert(upto.drop_last() =~= string_views(names@).take(k as int));
        assert(upto.last() == name@);
        if is_flash_file(name.as_str(), pattern) {
            let x = chars_of(name.as_str());
            let ghost rv = string_views(r@);
            let mut p: usize = 0;
            while p < r.len() && chars_le(&chars_of(r[p].as_str()), &x)
                invariant
                    p <= r@.len(),
                    rv == string_views(r@),
                    x@ == name@,
                    forall|q: int| 0 <= q < p ==> text_le(#[trigger] rv[q], x@),
                decreases r@.len() - p,
            {
                p = p + 1;
            }
            proof {
                // Every name from position p on comes after the new one.
                if p < rv.len() {
                    lemma_text_le_facts(rv[p as int], x@, x@);
                    assert forall|j: int| p <= j < rv.len() implies text_le(
                        x@,
                        #[trigger] rv[j],
                    ) by {
                        if j > p {
                            assert(text_le(rv[p as int], rv[j]));
                            lemma_text_le_facts(x@, rv[p as int], rv[j]);
                        }
                    }
                }
            }
            let copy = name.clone();
            r.insert(p, copy);
            proof {
                let nv = string_views(r@);
                assert(nv =~= rv.insert(p as int, x@));
                assert forall|i: int, j: int| 0 <= i < j < nv.len() implies text_le(
                    #[trigger] nv[i],
                    #[trigger] nv[j],
                ) by {
                    if j < p {
                        assert(nv[i] == rv[i] && nv[j] == rv[j]);
                    } else if j == p {
                        assert(nv[i] == rv[i]);
                    } else if i < p {
                        assert(nv[i] == rv[i] && nv[j] == rv[j - 1]);
                        assert(text_le(x@, rv[j - 1]));
                        lemma_text_le_facts(rv[i], x@, rv[j - 1]);
                    } else if i == p {
                        assert(nv[j] == rv[j - 1]);
                    } else {
                        assert(nv[i] == rv[i - 1] && nv[j] == rv[j - 1]);
                    }
                }
            }
        }
        k = k + 1;
    }
    assert(string_views(names@).take(names@.len() as int) =~= string_views(names@));
    r
}

proof fn lemma_candidates_count(names: Seq<Seq<char>>, pattern: Seq<char>, v: Seq<char>)
    ensures
        flash_candidates(names, pattern).to_multiset().count(v) == if is_flash_file_name(
            v,
            pattern,
        ) {
            names.to_multiset().count(v)
        } else {
            0
        },
    decreases names.len(),
{
    broadcast use vstd::multiset::group_multiset_axioms, vstd::seq_lib::group_to_multiset_ensures;

    if names.len() == 0 {
        assert(flash_candidates(names, pattern) =~= names);
    } else {
        let init = names.drop_last();
        let last = names.last();
        lemma_candidates_count(init, pattern, v);
        assert(names =~= init.push(last));
    }
}

/// Which files a flash run uses, and their order, do not depend on the
/// order in which the directory lists its files: listings with the same
/// names give the same sorted selection.
pub proof fn lemma_flash_selection_ignores_listing_order(
    names1: Seq<Seq<char>>,
    names2: Seq<Seq<char>>,
    pattern: Seq<char>,
    selected1: Seq<Seq<char>>,
    selected2: Seq<Seq<char>>,
)
    requires
        names1.to_multiset() == names2.to_multiset(),
        texts_sorted(selected1),
        selected1.to_multiset() == flash_candidates(names1, pattern).to_multiset(),
        texts_sorted(selected2),
        selected2.to_multiset() == flash_candidates(names2, pattern).to_multiset(),
    ensures
        selected1 == selected2,
{
    assert forall|v: Seq<char>|
        flash_candidates(names1, pattern).to_multiset().count(v) == flash_candidates(
            names2,
            pattern,
        ).to_multiset().count(v) by {
        lemma_candidates_count(names1, pattern, v);
        lemma_candidates_count(names2, pattern, v);
    }
    assert(flash_candidates(names1, pattern).to_multiset() =~= flash_candidates(
        names2,
        pattern,
    ).to_multiset());
    lemma_text_order_total();
    assert(vstd::relations::sorted_by(selected1, text_order()));
    assert(vstd::relations::sorted_by(selected2, text_order()));
    vstd::seq_lib::lemma_sorted_unique(selected1, selected2, text_order());
}

/// The files of a ROM directory that a flash run uses: the raw program
/// descriptions and the patch descriptions, each sorted.
pub struct FlashFiles {
    pub rawprogram: Vec<String>,
    pub patch: Vec<String>,
}

/// The files of a ROM directory that a flash run uses, given the names of
/// its regular files: those whose names hold "rawprogram", and those whose
/// names hold "patch", each ending with ".xml" and each group sorted.
pub fn flash_files(names: &Vec<String>) -> (r: FlashFiles)
    ensures
        texts_sorted(string_views(r.rawprogram@)),
        string_views(r.rawprogram@).to_multiset() == flash_candidates(
            string_views(names@),
            "rawprogram"@,
        ).to_multiset(),
        texts_sorted(string_views(r.patch@)),
        string_views(r.patch@).to_multiset() == flash_candidates(
            string_views(names@),
            "patch"@,
        ).to_multiset(),
{
    FlashFiles {
        rawprogram: select_flash_files(names, "rawprogram"),
        patch: select_flash_files(names, "patch"),
    }
}

/// What a flash run reports, given how many raw program and patch files it
/// found: it starts; without raw program files it stops with an error;
/// otherwise it tells both counts and completes.
pub open spec fn flash_report_lines(rawprogram: nat, patch: nat) -> Seq<Seq<char>> {
    if rawprogram == 0 {
        seq![
            "Starting flash operation..."@,
            "Error: No rawprogram XML files found in ROM directory"@,
        ]
    } else {
        seq![
            "Starting flash operation..."@,
            "Found "@ + decimal(rawprogram) + " rawprogram files"@,
            "Found "@ + decimal(patch) + " patch files"@,
            "Flash operation completed (placeholder)"@,
        ]
    }
}

/// The messages of a flash run, in order, given how many raw program and
/// patch files it found.
pub fn flash_report(rawprogram: usize, patch: usize) -> (r: Vec<String>)
    ensures
        string_views(r@) == flash_report_lines(rawprogram as nat, patch as nat),
{
    let mut r: Vec<String> = Vec::new();
    r.push(String::from_str("Starting flash operation..."));
    if rawprogram == 0 {
        r.push(String::from_str("Error: No rawprogram XML files found in ROM directory"));
    } else {
        let mut a = String::from_str("Found ");
        let n = decimal_string(rawprogram);
        a.append(n.as_str());
        a.append(" rawprogram files");
        r.push(a);
        let mut b = String::from_str("Found ");
        let m = decimal_string(patch);
        b.append(m.as_str());
        b.append(" patch files");
        r.push(b);
        r.push(String::from_str("Flash operation completed (placeholder)"));
    }
    assert(string_views(r@) =~= flash_report_lines(rawprogram as nat, patch as nat));
    r
}

/// A flash run that found raw program files never reports the missing-files
/// error: it reports four lines, the second telling how many raw program
/// files it found and the third how many patch files. The error, as the
/// second and last line, comes exactly when it found none.
pub proof fn lemma_flash_report_errs_only_without_rawprogram_files(rawprogram: nat, patch: nat)
    ensures
        rawprogram > 0 ==> flash_report_lines(rawprogram, patch).len() == 4,
        rawprogram > 0 ==> flash_report_lines(rawprogram, patch)[1] == "Found "@ + decimal(
            rawprogram,
        ) + " rawprogram files"@,
        rawprogram > 0 ==> flash_report_lines(rawprogram, patch)[2] == "Found "@ + decimal(patch)
            + " patch files"@,
        rawprogram > 0 ==> forall|k: int|
            0 <= k < flash_report_lines(rawprogram, patch).len() ==> #[trigger] flash_report_lines(
                rawprogram,
                patch,
            )[k] != "Error: No rawprogram XML files found in ROM directory"@,
        rawprogram == 0 ==> flash_report_lines(rawprogram, patch).len() == 2
            && flash_report_lines(rawprogram, patch)[1]
            == "Error: No rawprogram XML files found in ROM directory"@,
{
    reveal_strlit("Error: No rawprogram XML files found in ROM directory");
    reveal_strlit("Starting flash operation...");
    reveal_strlit("Found ");
    reveal_strlit("Flash operation completed (placeholder)");
    let err = "Error: No rawprogram XML files found in ROM directory"@;
    if rawprogram > 0 {
        let lines = flash_report_lines(rawprogram, patch);
        assert(lines[0][0] != err[0]);
        assert(lines[1][0] == 'F');
        assert(lines[2][0] == 'F');
        assert(lines[3][0] != err[0]);
    }
}

} // verus!
