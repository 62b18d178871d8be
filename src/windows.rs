use vstd::prelude::*;

use crate::text::{
    chars_of, contains, decimal, decimal_text, holds, lines, lines_of, parse_u128, parsed_u128,
    same, split_char, split_on, split_words, string_of, trim, trimmed, views, words,
};

verus! {

/// The last word of the last line that holds `key`; empty where none does.
pub open spec fn keyed_word(ls: Seq<Seq<char>>, key: Seq<char>) -> Seq<char>
    decreases ls.len(),
{
    if ls.len() == 0 {
        Seq::empty()
    } else if contains(ls.last(), key) && words(ls.last()).len() > 0 {
        words(ls.last()).last()
    } else {
        keyed_word(ls.drop_last(), key)
    }
}

fn keyed_word_exec(text: &str, key: &str) -> (r: Vec<char>)
    ensures
        r@ == keyed_word(lines_of(text@), key@),
{
    let ls = lines(&chars_of(text));
    let k = chars_of(key);
    let mut out: Vec<char> = Vec::new();
    let mut i: usize = 0;
    while i < ls.len()
        invariant
            i <= ls@.len(),
            views(ls@) == lines_of(text@),
            k@ == key@,
            out@ == keyed_word(views(ls@).subrange(0, i as int), key@),
        decreases ls@.len() - i,
    {
        assert(views(ls@).subrange(0, i + 1).drop_last() =~= views(ls@).subrange(0, i as int));
        assert(ls@[i as int]@ == views(ls@)[i as int]);
        if holds(&ls[i], &k) {
            let ws = split_words(&ls[i]);
            assert(ws@.len() == views(ws@).len());
            if ws.len() > 0 {
                assert(ws@[ws@.len() - 1]@ == views(ws@)[ws@.len() - 1]);
                out = ws[ws.len() - 1].clone();
            }
        }
        i = i + 1;
    }
    assert(views(ls@).subrange(0, ls@.len() as int) =~= views(ls@));
    out
}

/// The computer name in the output of `reg query` on the `ComputerName` key.
pub fn get_hostname(output: &str) -> (r: String)
    ensures
        r@ == keyed_word(lines_of(output@), "ComputerName"@),
{
    string_of(&keyed_word_exec(output, "ComputerName"))
}

/// The user in the output of `reg query` on the profile list: the last part,
/// after `\`, of the last profile path.
pub fn get_user(output: &str) -> (r: String)
    ensures
        r@ == split_on(keyed_word(lines_of(output@), "ProfileImagePath"@), '\\').last(),
{
    let w = keyed_word_exec(output, "ProfileImagePath");
    let parts = split_char(&w, '\\');
    proof {
        crate::text::lemma_split_nonempty(w@, '\\');
    }
    assert(parts@.len() == views(parts@).len());
    assert(parts@[parts@.len() - 1]@ == views(parts@)[parts@.len() - 1]);
    string_of(&parts[parts.len() - 1])
}

/// The shell, from the console font in the output of `reg query` on
/// `HKCU\Console`: `PowerShell` where the font is `Lucida Console`, else `CMD`.
pub fn get_shell(output: &str) -> (r: String)
    ensures
        r@ == if keyed_word(lines_of(output@), "FaceName"@) == "Lucida Console"@ {
            "PowerShell"@
        } else {
            "CMD"@
        },
{
    let w = keyed_word_exec(output, "FaceName");
    if same(&w, &chars_of("Lucida Console")) {
        String::from_str("PowerShell")
    } else {
        String::from_str("CMD")
    }
}

/// The IPv4 address in the output of `ipconfig /all`: the last word of the last
/// line that holds `IPv4 Address`.
pub fn get_ipaddr(output: &str) -> (r: String)
    ensures
        r@ == keyed_word(lines_of(output@), "IPv4 Address"@),
{
    string_of(&keyed_word_exec(output, "IPv4 Address"))
}

/// The last line of `wmic` output that is not the header line (it does not hold
/// `header`) and is not blank; empty where there is none.
pub open spec fn value_line(ls: Seq<Seq<char>>, header: Seq<char>) -> Seq<char>
    decreases ls.len(),
{
    if ls.len() == 0 {
        Seq::empty()
    } else if !contains(ls.last(), header) && trim(ls.last()).len() > 0 {
        ls.last()
    } else {
        value_line(ls.drop_last(), header)
    }
}

fn value_line_exec(text: &str, header: &str) -> (r: Vec<char>)
    ensures
        r@ == value_line(lines_of(text@), header@),
{
    let ls = lines(&chars_of(text));
    let h = chars_of(header);
    let mut out: Vec<char> = Vec::new();
    let mut i: usize = 0;
    while i < ls.len()
        invariant
            i <= ls@.len(),
            views(ls@) == lines_of(text@),
            h@ == header@,
            out@ == value_line(views(ls@).subrange(0, i as int), header@),
        decreases ls@.len() - i,
    {
        assert(views(ls@).subrange(0, i + 1).drop_last() =~= views(ls@).subrange(0, i as int));
        assert(ls@[i as int]@ == views(ls@)[i as int]);
        if !holds(&ls[i], &h) && trimmed(&ls[i]).len() > 0 {
            out = ls[i].clone();
        }
        i = i + 1;
    }
    assert(views(ls@).subrange(0, ls@.len() as int) =~= views(ls@));
    out
}

/// The processor in the output of `wmic cpu get name`.
pub fn get_cpu(output: &str) -> (r: String)
    ensures
        r@ == value_line(lines_of(output@), "Name"@),
{
    string_of(&value_line_exec(output, "Name"))
}

/// The product name in the output of `wmic OS get Caption`.
pub fn get_kernel(output: &str) -> (r: String)
    ensures
        r@ == value_line(lines_of(output@), "Caption"@),
{
    string_of(&value_line_exec(output, "Caption"))
}

/// The graphics controller in the output of `wmic path win32_VideoController get Name`.
pub fn get_gpu(output: &str) -> (r: String)
    ensures
        r@ == value_line(lines_of(output@), "Name"@),
{
    string_of(&value_line_exec(output, "Name"))
}

/// The architecture in the output of `wmic ... get OSArchitecture`, trimmed.
pub fn get_arch(output: &str) -> (r: String)
    ensures
        r@ == trim(value_line(lines_of(output@), "OSArchitecture"@)),
{
    string_of(&trimmed(&value_line_exec(output, "OSArchitecture")))
}

/// The value of the last line that holds `key` and `=`: what follows its first
/// `=`, up to the next, trimmed; empty where no line does.
pub open spec fn keyed_value(ls: Seq<Seq<char>>, key: Seq<char>) -> Seq<char>
    decreases ls.len(),
{
    if ls.len() == 0 {
        Seq::empty()
    } else if contains(ls.last(), key) && split_on(ls.last(), '=').len() >= 2 {
        trim(split_on(ls.last(), '=')[1])
    } else {
        keyed_value(ls.drop_last(), key)
    }
}

fn keyed_value_exec(text: &str, key: &str) -> (r: Vec<char>)
    ensures
        r@ == keyed_value(lines_of(text@), key@),
{
    let ls = lines(&chars_of(text));
    let k = chars_of(key);
    let mut out: Vec<char> = Vec::new();
    let mut i: usize = 0;
    while i < ls.len()
        invariant
            i <= ls@.len(),
            views(ls@) == lines_of(text@),
            k@ == key@,
            out@ == keyed_value(views(ls@).subrange(0, i as int), key@),
        decreases ls@.len() - i,
    {
        assert(views(ls@).subrange(0, i + 1).drop_last() =~= views(ls@).subrange(0, i as int));
        assert(ls@[i as int]@ == views(ls@)[i as int]);
        if holds(&ls[i], &k) {
            let parts = split_char(&ls[i], '=');
            assert(parts@.len() == views(parts@).len());
            if parts.len() >= 2 {
                assert(parts@[1]@ == views(parts@)[1]);
                out = trimmed(&parts[1]);
            }
        }
        i = i + 1;
    }
    assert(views(ls@).subrange(0, ls@.len() as int) =~= views(ls@));
    out
}

/// The resolution, `<width>x<height>`, in the output of `wmic path
/// Win32_VideoController get ... /format:value`.
pub fn get_resolution(output: &str) -> (r: String)
    ensures
        r@ == keyed_value(lines_of(output@), "CurrentHorizontalResolution"@) + "x"@
            + keyed_value(lines_of(output@), "CurrentVerticalResolution"@),
{
    let h = string_of(&keyed_value_exec(output, "CurrentHorizontalResolution"));
    let v = string_of(&keyed_value_exec(output, "CurrentVerticalResolution"));
    h.concat("x").concat(v.as_str())
}

/// A line of `wmic` table output that holds data: not the header (it does not
/// hold `header`) and not blank.
pub open spec fn is_data_line(l: Seq<char>, header: Seq<char>) -> bool {
    !contains(l, header) && trim(l).len() > 0
}

/// The first two words of the last data line; empty words where there is none.
pub open spec fn last_pair(ls: Seq<Seq<char>>) -> Option<(Seq<char>, Seq<char>)>
    decreases ls.len(),
{
    if ls.len() == 0 {
        Some((Seq::empty(), Seq::empty()))
    } else if is_data_line(ls.last(), "Memory"@) {
        if words(ls.last()).len() >= 2 {
            Some((words(ls.last())[0], words(ls.last())[1]))
        } else {
            None
        }
    } else {
        last_pair(ls.drop_last())
    }
}

/// The memory in use and in all, `"<used>MB / <total>MB"`, from the free and total
/// kilobytes in the output of `wmic OS get FreePhysicalMemory,TotalVisibleMemorySize`;
/// `None` where they cannot be read as numbers below 2^64 or more is free than
/// there is.
pub open spec fn ram_text(output: Seq<char>) -> Option<Seq<char>> {
    match last_pair(lines_of(output)) {
        Some((f, t)) => match (parsed_u128(f), parsed_u128(t)) {
            (Some(free), Some(total)) => if free <= total && total <= u64::MAX {
                Some(decimal(((total - free) / 1024) as nat) + "MB / "@ + decimal(
                    (total / 1024) as nat,
                ) + "MB"@)
            } else {
                None
            },
            _ => None,
        },
        None => None,
    }
}

/// The memory in use and in all, from the output of `wmic OS get ...`.
pub fn get_ram_used(output: &str) -> (r: Option<String>)
    ensures
        match ram_text(output@) {
            Some(t) => r matches Some(s) && s@ == t,
            None => r is None,
        },
{
    let ls = lines(&chars_of(output));
    let header = chars_of("Memory");
    let mut pair: Option<(Vec<char>, Vec<char>)> = Some((Vec::new(), Vec::new()));
    let mut i: usize = 0;
    while i < ls.len()
        invariant
            i <= ls@.len(),
            views(ls@) == lines_of(output@),
            header@ == "Memory"@,
            match last_pair(views(ls@).subrange(0, i as int)) {
                Some((a, b)) => pair matches Some(p) && p.0@ == a && p.1@ == b,
                None => pair is None,
            },
        decreases ls@.len() - i,
    {
        assert(views(ls@).subrange(0, i + 1).drop_last() =~= views(ls@).subrange(0, i as int));
        assert(ls@[i as int]@ == views(ls@)[i as int]);
        if !holds(&ls[i], &header) && trimmed(&ls[i]).len() > 0 {
            let ws = split_words(&ls[i]);
            assert(ws@.len() == views(ws@).len());
            if ws.len() >= 2 {
                assert(ws@[0]@ == views(ws@)[0]);
                assert(ws@[1]@ == views(ws@)[1]);
                pair = Some((ws[0].clone(), ws[1].clone()));
            } else {
                pair = None;
            }
        }
        i = i + 1;
    }
    assert(views(ls@).subrange(0, ls@.len() as int) =~= views(ls@));
    match pair {
        None => None,
        Some((f, t)) => match (parse_u128(&f), parse_u128(&t)) {
            (Some(free), Some(total)) => {
                if free <= total && total <= u64::MAX as u128 {
                    Some(
                        decimal_text((total - free) / 1024).concat("MB / ").concat(
                            decimal_text(total / 1024).as_str(),
                        ).concat("MB"),
                    )
                } else {
                    None
                }
            },
            _ => None,
        },
    }
}

/// Bytes in a gibibyte.
pub const GIB: u128 = 1073741824;

/// The usage text of one disk: `<name> <used>GB / <size>GB` from its name, free
/// bytes and size in bytes; `None` where they cannot be read as numbers below
/// 2^64 or more is free than there is.
pub open spec fn disk_text(w: Seq<Seq<char>>) -> Option<Seq<char>> {
    match (parsed_u128(trim(w[1])), parsed_u128(trim(w[2]))) {
        (Some(free), Some(size)) => if free <= size && size <= u64::MAX {
            Some(trim(w[0]) + " "@ + decimal(((size - free) / (GIB as int)) as nat) + "GB / "@ + decimal(
                (size as int / (GIB as int)) as nat,
            ) + "GB"@)
        } else {
            None
        },
        _ => None,
    }
}

/// The usage of each disk in `wmic logicaldisk` lines, run together; `None` where
/// a data line has fewer than three words or cannot be read.
pub open spec fn disks_text(ls: Seq<Seq<char>>) -> Option<Seq<char>>
    decreases ls.len(),
{
    if ls.len() == 0 {
        Some(Seq::empty())
    } else {
        match disks_text(ls.drop_last()) {
            None => None,
            Some(acc) => if is_data_line(ls.last(), "Caption"@) {
                if words(ls.last()).len() >= 3 {
                    match disk_text(words(ls.last())) {
                        Some(d) => Some(acc + d),
                        None => None,
                    }
                } else {
                    None
                }
            } else {
                Some(acc)
            },
        }
    }
}

proof fn lemma_disks_stop(ls: Seq<Seq<char>>, j: int)
    requires
        0 <= j <= ls.len(),
        disks_text(ls.subrange(0, j)) is None,
    ensures
        disks_text(ls) is None,
    decreases ls.len(),
{
    if j < ls.len() {
        assert(ls.drop_last().subrange(0, j) =~= ls.subrange(0, j));
        lemma_disks_stop(ls.drop_last(), j);
    } else {
        assert(ls.subrange(0, j) =~= ls);
    }
}

/// The usage of each disk, from the output of `wmic logicaldisk get
/// size,freespace,caption`.
pub fn get_disk_usage(output: &str) -> (r: Option<String>)
    ensures
        match disks_text(lines_of(output@)) {
            Some(t) => r matches Some(s) && s@ == t,
            None => r is None,
        },
{
    let ls = lines(&chars_of(output));
    let header = chars_of("Caption");
    let mut acc = String::new();
    let mut i: usize = 0;
    while i < ls.len()
        invariant
            i <= ls@.len(),
            views(ls@) == lines_of(output@),
            header@ == "Caption"@,
            disks_text(views(ls@).subrange(0, i as int)) == Some(acc@),
        decreases ls@.len() - i,
    {
        assert(views(ls@).subrange(0, i + 1).drop_last() =~= views(ls@).subrange(0, i as int));
        assert(ls@[i as int]@ == views(ls@)[i as int]);
        if !holds(&ls[i], &header) && trimmed(&ls[i]).len() > 0 {
            let ws = split_words(&ls[i]);
            assert(ws@.len() == views(ws@).len());
            if ws.len() < 3 {
                proof {
                    lemma_disks_stop(views(ls@), i + 1);
                }
                return None;
            }
            assert(ws@[0]@ == views(ws@)[0]);
            assert(ws@[1]@ == views(ws@)[1]);
            assert(ws@[2]@ == views(ws@)[2]);
            let name = trimmed(&ws[0]);
            match (parse_u128(&trimmed(&ws[1])), parse_u128(&trimmed(&ws[2]))) {
                (Some(free), Some(size)) => {
                    if free <= size && size <= u64::MAX as u128 {
                        acc = acc.concat(string_of(&name).as_str()).concat(" ").concat(
                            decimal_text((size - free) / GIB).as_str(),
                        ).concat("GB / ").concat(decimal_text(size / GIB).as_str()).concat("GB");
                    } else {
                        proof {
                            lemma_disks_stop(views(ls@), i + 1);
                        }
                        return None;
                    }
                },
                _ => {
                    proof {
                        lemma_disks_stop(views(ls@), i + 1);
                    }
                    return None;
                },
            }
        }
        i = i + 1;
    }
    assert(views(ls@).subrange(0, ls@.len() as int) =~= views(ls@));
    Some(acc)
}

/// The graphics controllers in `wmic` lines after the header: each non-blank
/// line, trimmed, behind a `GPU` label, one per line.
pub open spec fn gpu_list(ls: Seq<Seq<char>>) -> Seq<char>
    decreases ls.len(),
{
    if ls.len() <= 1 {
        Seq::empty()
    } else if trim(ls.last()).len() > 0 {
        let entry = "GPU          : GPU: "@ + trim(ls.last());
        if gpu_list(ls.drop_last()).len() == 0 {
            entry
        } else {
            gpu_list(ls.drop_last()) + "\n"@ + entry
        }
    } else {
        gpu_list(ls.drop_last())
    }
}

/// The graphics controllers named in the output of `wmic path
/// win32_VideoController get name`.
pub fn gpus_from_wmic(output: &str) -> (r: String)
    ensures
        r@ == gpu_list(lines_of(output@)),
{
    let ls = lines(&chars_of(output));
    let mut out = String::new();
    if ls.len() == 0 {
        return out;
    }
    let mut i: usize = 1;
    assert(views(ls@).subrange(0, 1).len() == 1);
    while i < ls.len()
        invariant
            1 <= i <= ls@.len(),
            views(ls@) == lines_of(output@),
            out@ == gpu_list(views(ls@).subrange(0, i as int)),
        decreases ls@.len() - i,
    {
        assert(views(ls@).subrange(0, i + 1).drop_last() =~= views(ls@).subrange(0, i as int));
        assert(ls@[i as int]@ == views(ls@)[i as int]);
        let gpu = trimmed(&ls[i]);
        if gpu.len() > 0 {
            let entry = String::from_str("GPU          : GPU: ").concat(string_of(&gpu).as_str());
            if out.as_str().is_empty() {
                out = entry;
            } else {
                out = out.concat("\n").concat(entry.as_str());
            }
        }
        i = i + 1;
    }
    assert(views(ls@).subrange(0, ls@.len() as int) =~= views(ls@));
    out
}

} // verus!
