//! The run report: a human-readable message, with the excluded entries
//! appended after an explanatory separator when there are any.

use vstd::prelude::*;
use vstd::string::StringExecFns;

verus! {

/// The excluded names, one per line.
pub open spec fn excluded_lines(files: Seq<Seq<char>>) -> Seq<char>
    decreases files.len(),
{
    if files.len() == 0 {
        Seq::empty()
    } else {
        excluded_lines(files.drop_last()) + files.last() + seq!['\n']
    }
}

/// The separator and explanation that precede the excluded names.
pub open spec fn exclusion_header() -> Seq<char> {
    "\n====================================\nexcluded because they have no meta file:\n"@
}

/// The full report: the base message alone when nothing was excluded, else
/// the base message, the explanatory separator, and one line per excluded
/// name in order.
pub open spec fn report_text(src: Seq<char>, files: Seq<Seq<char>>) -> Seq<char> {
    if files.len() == 0 {
        src
    } else {
        src + exclusion_header() + excluded_lines(files)
    }
}

/// Append the excluded entries, if any, to a base message.
pub fn join_uncopy_files(src: &str, uncopy_files: &Vec<String>) -> (r: String)
    ensures
        r@ == report_text(src@, uncopy_files@.map_values(|s: String| s@)),
{
    let ghost fv = uncopy_files@.map_values(|s: String| s@);
    let mut text = src.to_owned();
    if uncopy_files.len() == 0 {
        return text;
    }
    text.append("\n====================================\nexcluded because they have no meta file:\n");
    let n = uncopy_files.len();
    let mut i: usize = 0;
    while i < n
        invariant
            0 <= i <= n,
            n == uncopy_files@.len(),
            n > 0,
            fv == uncopy_files@.map_values(|s: String| s@),
            text@ == src@ + exclusion_header() + excluded_lines(fv.subrange(0, i as int)),
        decreases n - i,
    {
        text.append(uncopy_files[i].as_str());
        text.append("\n");
        proof {
            reveal_strlit("\n");
            assert(fv.subrange(0, i + 1).drop_last() =~= fv.subrange(0, i as int));
            assert(text@ =~= src@ + exclusion_header() + excluded_lines(fv.subrange(0, i + 1)));
        }
        i += 1;
    }
    proof {
        assert(fv.subrange(0, n as int) =~= fv);
    }
    text
}

} // verus!
