use vstd::prelude::*;

use crate::linux::{after_first, find, lemma_after_first};
use crate::text::{
    chars_of, contains, holds, lines, lines_of, remove_all, slice, split_char, split_on,
    string_of, stripped, trim, trimmed, views,
};

verus! {

/// `s` without leading or trailing whitespace.
pub fn trimmed_text(s: &str) -> (r: String)
    ensures
        r@ == trim(s@),
{
    string_of(&trimmed(&chars_of(s)))
}

/// The resolution in the bounds that Finder gives for the desktop,
/// `0, 0, <width>, <height>`: `<width>x<height>`, or `unknown` where there are not
/// four comma-separated parts.
pub open spec fn bounds_resolution(output: Seq<char>) -> Seq<char> {
    let parts = split_on(trim(output), ',');
    if parts.len() == 4 {
        trim(parts[2]) + "x"@ + trim(parts[3])
    } else {
        "unknown"@
    }
}

/// The screen resolution from the desktop bounds that `osascript` prints.
pub fn get_resolution(output: &str) -> (r: String)
    ensures
        r@ == bounds_resolution(output@),
{
    let parts = split_char(&trimmed(&chars_of(output)), ',');
    assert(parts@.len() == views(parts@).len());
    if parts.len() == 4 {
        assert(parts@[2]@ == views(parts@)[2]);
        assert(parts@[3]@ == views(parts@)[3]);
        let w = string_of(&trimmed(&parts[2]));
        let h = string_of(&trimmed(&parts[3]));
        w.concat("x").concat(h.as_str())
    } else {
        String::from_str("unknown")
    }
}

/// The graphics controllers in `system_profiler SPDisplaysDataType` lines: of each
/// line that holds `Chipset Model:`, the rest without it, trimmed, behind a `GPU`
/// label, one per line.
pub open spec fn gpu_list(ls: Seq<Seq<char>>) -> Seq<char>
    decreases ls.len(),
{
    if ls.len() == 0 {
        Seq::empty()
    } else if contains(ls.last(), "Chipset Model:"@) {
        let entry = "GPU          : GPU: "@ + trim(stripped(ls.last(), "Chipset Model:"@));
        if gpu_list(ls.drop_last()).len() == 0 {
            entry
        } else {
            gpu_list(ls.drop_last()) + "\n"@ + entry
        }
    } else {
        gpu_list(ls.drop_last())
    }
}

/// The graphics controllers named in the output of `system_profiler SPDisplaysDataType`.
pub fn gpus_from_profiler(output: &str) -> (r: String)
    ensures
        r@ == gpu_list(lines_of(output@)),
{
    let ls = lines(&chars_of(output));
    let key = chars_of("Chipset Model:");
    let mut out = String::new();
    let mut i: usize = 0;
    while i < ls.len()
        invariant
            i <= ls@.len(),
            views(ls@) == lines_of(output@),
            key@ == "Chipset Model:"@,
            out@ == gpu_list(views(ls@).subrange(0, i as int)),
        decreases ls@.len() - i,
    {
        assert(views(ls@).subrange(0, i + 1).drop_last() =~= views(ls@).subrange(0, i as int));
        assert(ls@[i as int]@ == views(ls@)[i as int]);
        if holds(&ls[i], &key) {
            let gpu = string_of(&trimmed(&remove_all(&ls[i], &key)));
            let entry = String::from_str("GPU          : GPU: ").concat(gpu.as_str());
            if out.as_str().is_empty() {
                out = entry;
            } else {
                out = out.concat("\n").concat(entry.as_str());
            }
        }
        i = i + 1;
    }
    assert(views(ls@).subrange(0, ls@.len() as int) =~= views(ls@));
    out
}

/// The graphics controller in `system_profiler` lines: the first line that holds
/// `Chipset Model:` and `: ` gives what follows its first `: `, trimmed; empty
/// where none does.
pub open spec fn first_chipset(ls: Seq<Seq<char>>) -> Seq<char>
    decreases ls.len(),
{
    if ls.len() == 0 {
        Seq::empty()
    } else {
        let l = ls[0];
        if contains(l, "Chipset Model:"@) && contains(l, ": "@) {
            trim(after_first(l, ": "@))
        } else {
            first_chipset(ls.subrange(1, ls.len() as int))
        }
    }
}

/// The graphics controller named in the output of `system_profiler SPDisplaysDataType`.
pub fn get_gpu(output: &str) -> (r: String)
    ensures
        r@ == first_chipset(lines_of(output@)),
{
    let ls = lines(&chars_of(output));
    let key = chars_of("Chipset Model:");
    let sep = chars_of(": ");
    proof {
        reveal_strlit(": ");
    }
    let mut i: usize = 0;
    assert(views(ls@).subrange(0, ls@.len() as int) =~= views(ls@));
    while i < ls.len()
        invariant
            i <= ls@.len(),
            views(ls@) == lines_of(output@),
            key@ == "Chipset Model:"@,
            sep@ == ": "@,
            sep@.len() == 2,
            first_chipset(views(ls@).subrange(i as int, ls@.len() as int)) == first_chipset(
                lines_of(output@),
            ),
        decreases ls@.len() - i,
    {
        let ghost rest = views(ls@).subrange(i as int, ls@.len() as int);
        assert(rest[0] == ls@[i as int]@);
        assert(rest.subrange(1, rest.len() as int) =~= views(ls@).subrange(
            i + 1,
            ls@.len() as int,
        ));
        if holds(&ls[i], &key) {
            let n = ls[i].len();
            match find(&ls[i], &sep) {
                Some(pos) => {
                    assert(pos + 2 <= n);
                    let tail = slice(&ls[i], pos + 2, n);
                    proof {
                        lemma_after_first(ls@[i as int]@, ": "@, pos as int);
                    }
                    return string_of(&trimmed(&tail));
                },
                None => {},
            }
        }
        i = i + 1;
    }
    assert(views(ls@).subrange(i as int, ls@.len() as int).len() == 0);
    String::new()
}

} // verus!
