use vstd::prelude::*;

use crate::text::{
    chars_of, contains, decimal, decimal_text, holds, lines, lines_of, parse_u128, parsed_u128,
    remove_all, remove_char, split_at_pattern, split_char, split_on, split_pattern, string_of,
    stripped, trim, trimmed, views, without,
};

verus! {

/// The shell in `/etc/passwd` lines: the seventh field of the last line that
/// holds `user` and has seven fields; empty where there is none.
pub open spec fn passwd_shell(ls: Seq<Seq<char>>, user: Seq<char>) -> Seq<char>
    decreases ls.len(),
{
    if ls.len() == 0 {
        Seq::empty()
    } else if contains(ls.last(), user) && split_on(ls.last(), ':').len() > 6 {
        split_on(ls.last(), ':')[6]
    } else {
        passwd_shell(ls.drop_last(), user)
    }
}

/// The login shell of `user` according to the text of `/etc/passwd`.
pub fn get_shell(passwd: &str, user: &str) -> (r: String)
    ensures
        r@ == passwd_shell(lines_of(passwd@), user@),
{
    let ls = lines(&chars_of(passwd));
    let u = chars_of(user);
    let mut shell: Vec<char> = Vec::new();
    let mut i: usize = 0;
    while i < ls.len()
        invariant
            i <= ls@.len(),
            views(ls@) == lines_of(passwd@),
            u@ == user@,
            shell@ == passwd_shell(views(ls@).subrange(0, i as int), user@),
        decreases ls@.len() - i,
    {
        assert(views(ls@).subrange(0, i + 1).drop_last() =~= views(ls@).subrange(0, i as int));
        assert(ls@[i as int]@ == views(ls@)[i as int]);
        if holds(&ls[i], &u) {
            let fields = split_char(&ls[i], ':');
            assert(fields@.len() == views(fields@).len());
            if fields.len() > 6 {
                assert(fields@[6]@ == views(fields@)[6]);
                shell = fields[6].clone();
            }
        }
        i = i + 1;
    }
    assert(views(ls@).subrange(0, ls@.len() as int) =~= views(ls@));
    string_of(&shell)
}

/// The amount in a `/proc/meminfo` line, in thousands of kilobytes: the text after
/// the first `:`, without tabs, `kB` or spaces, read as a number.
pub open spec fn ram_value(l: Seq<char>) -> Option<u128> {
    if split_on(l, ':').len() < 2 {
        None
    } else {
        match parsed_u128(without(stripped(without(split_on(l, ':')[1], '\t'), "kB"@), ' ')) {
            Some(k) => Some(k / 1000),
            None => None,
        }
    }
}

/// The amount in a `/proc/meminfo` line, in thousands of kilobytes.
pub fn eval_ram(line: &str) -> (r: Option<u128>)
    ensures
        r == ram_value(line@),
{
    let fields = split_char(&chars_of(line), ':');
    assert(fields@.len() == views(fields@).len());
    if fields.len() < 2 {
        return None;
    }
    assert(fields@[1]@ == views(fields@)[1]);
    let a = remove_char(&fields[1], '\t');
    let b = remove_all(&a, &chars_of("kB"));
    let c = remove_char(&b, ' ');
    match parse_u128(&c) {
        Some(k) => Some(k / 1000),
        None => None,
    }
}

/// A `MemTotal` line.
pub open spec fn is_total_line(l: Seq<char>) -> bool {
    contains(l, "MemTotal"@)
}

/// A `MemAvailable` line that is no `MemTotal` line.
pub open spec fn is_available_line(l: Seq<char>) -> bool {
    !contains(l, "MemTotal"@) && contains(l, "MemAvailable"@)
}

/// The amount of the last total (or available) line: `None` where there is no
/// such line, else what that line reads as.
pub open spec fn last_amount(ls: Seq<Seq<char>>, total: bool) -> Option<Option<u128>>
    decreases ls.len(),
{
    if ls.len() == 0 {
        None
    } else if (total && is_total_line(ls.last())) || (!total && is_available_line(ls.last())) {
        Some(ram_value(ls.last()))
    } else {
        last_amount(ls.drop_last(), total)
    }
}

/// An amount that is zero where no line gave one.
pub open spec fn amount_or_zero(a: Option<Option<u128>>) -> Option<u128> {
    match a {
        None => Some(0),
        Some(v) => v,
    }
}

/// The memory in use and in all, `"<used>M / <total>M"`, from the lines of
/// `/proc/meminfo`; `None` where an amount cannot be read or more is available
/// than there is.
pub open spec fn ram_text(ls: Seq<Seq<char>>) -> Option<Seq<char>> {
    match (amount_or_zero(last_amount(ls, true)), amount_or_zero(last_amount(ls, false))) {
        (Some(t), Some(a)) => if a <= t {
            Some(decimal((t - a) as nat) + "M / "@ + decimal(t as nat) + "M"@)
        } else {
            None
        },
        _ => None,
    }
}

/// The memory in use and in all according to the text of `/proc/meminfo`.
pub fn get_ram_used(meminfo: &str) -> (r: Option<String>)
    ensures
        match ram_text(lines_of(meminfo@)) {
            Some(t) => r matches Some(s) && s@ == t,
            None => r is None,
        },
{
    let ls = lines(&chars_of(meminfo));
    let total_key = chars_of("MemTotal");
    let avail_key = chars_of("MemAvailable");
    let mut total: Option<Option<u128>> = None;
    let mut available: Option<Option<u128>> = None;
    let mut i: usize = 0;
    while i < ls.len()
        invariant
            i <= ls@.len(),
            views(ls@) == lines_of(meminfo@),
            total_key@ == "MemTotal"@,
            avail_key@ == "MemAvailable"@,
            total == last_amount(views(ls@).subrange(0, i as int), true),
            available == last_amount(views(ls@).subrange(0, i as int), false),
        decreases ls@.len() - i,
    {
        assert(views(ls@).subrange(0, i + 1).drop_last() =~= views(ls@).subrange(0, i as int));
        assert(ls@[i as int]@ == views(ls@)[i as int]);
        let text = string_of(&ls[i]);
        if holds(&ls[i], &total_key) {
            total = Some(eval_ram(text.as_str()));
        } else if holds(&ls[i], &avail_key) {
            available = Some(eval_ram(text.as_str()));
        }
        i = i + 1;
    }
    assert(views(ls@).subrange(0, ls@.len() as int) =~= views(ls@));
    let t = match total {
        None => Some(0u128),
        Some(v) => v,
    };
    let a = match available {
        None => Some(0u128),
        Some(v) => v,
    };
    match (t, a) {
        (Some(t), Some(a)) => {
            if a <= t {
                let s = decimal_text(t - a).concat("M / ").concat(decimal_text(t).as_str()).concat(
                    "M",
                );
                Some(s)
            } else {
                None
            }
        },
        _ => None,
    }
}

/// A line of `lspci -nn` that names a graphics controller.
pub open spec fn is_gpu_line(l: Seq<char>) -> bool {
    contains(l, "VGA compatible controller"@) || contains(l, "3D controller"@)
}

/// The graphics lines of `lspci -nn`, each trimmed behind a `GPU` label, one per
/// line.
pub open spec fn gpu_list(ls: Seq<Seq<char>>) -> Seq<char>
    decreases ls.len(),
{
    if ls.len() == 0 {
        Seq::empty()
    } else if is_gpu_line(ls.last()) {
        let entry = "GPU          : "@ + trim(ls.last());
        if gpu_list(ls.drop_last()).len() == 0 {
            entry
        } else {
            gpu_list(ls.drop_last()) + "\n"@ + entry
        }
    } else {
        gpu_list(ls.drop_last())
    }
}

/// The graphics controllers named in the output of `lspci -nn`.
pub fn gpus_from_lspci(output: &str) -> (r: String)
    ensures
        r@ == gpu_list(lines_of(output@)),
{
    let ls = lines(&chars_of(output));
    let vga = chars_of("VGA compatible controller");
    let three_d = chars_of("3D controller");
    let mut out = String::new();
    let mut i: usize = 0;
    while i < ls.len()
        invariant
            i <= ls@.len(),
            views(ls@) == lines_of(output@),
            vga@ == "VGA compatible controller"@,
            three_d@ == "3D controller"@,
            out@ == gpu_list(views(ls@).subrange(0, i as int)),
        decreases ls@.len() - i,
    {
        assert(views(ls@).subrange(0, i + 1).drop_last() =~= views(ls@).subrange(0, i as int));
        assert(ls@[i as int]@ == views(ls@)[i as int]);
        if holds(&ls[i], &vga) || holds(&ls[i], &three_d) {
            let line = string_of(&trimmed(&ls[i]));
            let entry = String::from_str("GPU          : ").concat(line.as_str());
            if out.as_str().is_empty() {
                out = entry;
            } else {
                out = out.concat("\n").concat(entry.as_str());
            }
        }
        i = i + 1;
    }
    assert(views(ls@).subrange(0, ls@.len() as int) =~= views(ls@));
    out
}

/// The value of an `/etc/os-release` line: what follows its first `=`, up to the
/// next, without double quotes.
pub open spec fn release_value(l: Seq<char>) -> Seq<char> {
    without(split_on(l, '=')[1], '"')
}

/// The distribution in `/etc/os-release` lines: the value of the last
/// `PRETTY_NAME` line, and after each `BUILD_ID` line its value in parentheses.
pub open spec fn distro_name(ls: Seq<Seq<char>>) -> Seq<char>
    decreases ls.len(),
{
    if ls.len() == 0 {
        Seq::empty()
    } else {
        let l = ls.last();
        let has_value = split_on(l, '=').len() >= 2;
        let pretty = if contains(l, "PRETTY_NAME"@) && has_value {
            release_value(l)
        } else {
            distro_name(ls.drop_last())
        };
        if contains(l, "BUILD_ID"@) && has_value {
            pretty + " ("@ + release_value(l) + ")"@
        } else {
            pretty
        }
    }
}

/// The distribution named by the text of `/etc/os-release`.
pub fn get_distro(os_release: &str) -> (r: String)
    ensures
        r@ == distro_name(lines_of(os_release@)),
{
    let ls = lines(&chars_of(os_release));
    let pretty_key = chars_of("PRETTY_NAME");
    let build_key = chars_of("BUILD_ID");
    let mut distro = String::new();
    let mut i: usize = 0;
    while i < ls.len()
        invariant
            i <= ls@.len(),
            views(ls@) == lines_of(os_release@),
            pretty_key@ == "PRETTY_NAME"@,
            build_key@ == "BUILD_ID"@,
            distro@ == distro_name(views(ls@).subrange(0, i as int)),
        decreases ls@.len() - i,
    {
        assert(views(ls@).subrange(0, i + 1).drop_last() =~= views(ls@).subrange(0, i as int));
        assert(ls@[i as int]@ == views(ls@)[i as int]);
        let fields = split_char(&ls[i], '=');
        assert(fields@.len() == views(fields@).len());
        if fields.len() >= 2 {
            assert(fields@[1]@ == views(fields@)[1]);
            let value = string_of(&remove_char(&fields[1], '"'));
            if holds(&ls[i], &pretty_key) {
                distro = value.clone();
            }
            if holds(&ls[i], &build_key) {
                distro = distro.concat(" (").concat(value.as_str()).concat(")");
            }
        }
        i = i + 1;
    }
    assert(views(ls@).subrange(0, ls@.len() as int) =~= views(ls@));
    distro
}

/// `s` without its first space.
pub open spec fn without_first_space(s: Seq<char>) -> Seq<char>
    decreases s.len(),
{
    if s.len() == 0 {
        s
    } else if s[0] == ' ' {
        s.subrange(1, s.len() as int)
    } else {
        seq![s[0]] + without_first_space(s.subrange(1, s.len() as int))
    }
}

fn remove_first_space(s: &Vec<char>) -> (r: Vec<char>)
    ensures
        r@ == without_first_space(s@),
{
    let mut out: Vec<char> = Vec::new();
    let mut i: usize = 0;
    assert(s@.subrange(0, s@.len() as int) =~= s@);
    while i < s.len()
        invariant
            i <= s@.len(),
            forall|k: int| 0 <= k < i ==> s@[k] != ' ',
            out@ == s@.subrange(0, i as int),
            out@ + without_first_space(s@.subrange(i as int, s@.len() as int))
                == without_first_space(s@),
        decreases s@.len() - i,
    {
        let ghost rest = s@.subrange(i as int, s@.len() as int);
        assert(rest.subrange(1, rest.len() as int) =~= s@.subrange(i + 1, s@.len() as int));
        if s[i] == ' ' {
            let tail = slice_from(s, i + 1);
            let ghost before = out@;
            let mut j: usize = 0;
            while j < tail.len()
                invariant
                    j <= tail@.len(),
                    out@ == before + tail@.subrange(0, j as int),
                decreases tail@.len() - j,
            {
                out.push(tail[j]);
                assert(out@ =~= before + tail@.subrange(0, j + 1));
                j = j + 1;
            }
            assert(tail@.subrange(0, tail@.len() as int) =~= tail@);
            return out;
        }
        let ghost before = out@;
        out.push(s[i]);
        assert(before + (seq![s@[i as int]] + without_first_space(
            rest.subrange(1, rest.len() as int),
        )) =~= out@ + without_first_space(s@.subrange(i + 1, s@.len() as int)));
        i = i + 1;
    }
    assert(out@ + without_first_space(s@.subrange(i as int, s@.len() as int)) =~= out@);
    out
}

fn slice_from(s: &Vec<char>, a: usize) -> (r: Vec<char>)
    requires
        a <= s@.len(),
    ensures
        r@ == s@.subrange(a as int, s@.len() as int),
{
    crate::text::slice(s, a, s.len())
}

/// The processor in `/proc/cpuinfo` lines: from the last `model name` line with a
/// `:`, the text after it, without tabs and without its first space.
pub open spec fn cpu_name(ls: Seq<Seq<char>>) -> Seq<char>
    decreases ls.len(),
{
    if ls.len() == 0 {
        Seq::empty()
    } else if contains(ls.last(), "model name"@) && split_on(ls.last(), ':').len() >= 2 {
        without_first_space(without(split_on(ls.last(), ':')[1], '\t'))
    } else {
        cpu_name(ls.drop_last())
    }
}

/// The processor named by the text of `/proc/cpuinfo`.
pub fn get_cpu(cpuinfo: &str) -> (r: String)
    ensures
        r@ == cpu_name(lines_of(cpuinfo@)),
{
    let ls = lines(&chars_of(cpuinfo));
    let key = chars_of("model name");
    let mut cpu: Vec<char> = Vec::new();
    let mut i: usize = 0;
    while i < ls.len()
        invariant
            i <= ls@.len(),
            views(ls@) == lines_of(cpuinfo@),
            key@ == "model name"@,
            cpu@ == cpu_name(views(ls@).subrange(0, i as int)),
        decreases ls@.len() - i,
    {
        assert(views(ls@).subrange(0, i + 1).drop_last() =~= views(ls@).subrange(0, i as int));
        assert(ls@[i as int]@ == views(ls@)[i as int]);
        if holds(&ls[i], &key) {
            let fields = split_char(&ls[i], ':');
            assert(fields@.len() == views(fields@).len());
            if fields.len() >= 2 {
                assert(fields@[1]@ == views(fields@)[1]);
                cpu = remove_first_space(&remove_char(&fields[1], '\t'));
            }
        }
        i = i + 1;
    }
    assert(views(ls@).subrange(0, ls@.len() as int) =~= views(ls@));
    string_of(&cpu)
}

/// The resolution in `xrandr` lines: the third space-separated field of the last
/// line that holds ` connected` and has three fields.
pub open spec fn xrandr_resolution(ls: Seq<Seq<char>>) -> Seq<char>
    decreases ls.len(),
{
    if ls.len() == 0 {
        Seq::empty()
    } else if contains(ls.last(), " connected"@) && split_on(ls.last(), ' ').len() >= 3 {
        split_on(ls.last(), ' ')[2]
    } else {
        xrandr_resolution(ls.drop_last())
    }
}

/// The screen resolution named by the output of `xrandr`.
pub fn get_resolution(xrandr: &str) -> (r: String)
    ensures
        r@ == xrandr_resolution(lines_of(xrandr@)),
{
    let ls = lines(&chars_of(xrandr));
    let key = chars_of(" connected");
    let mut res: Vec<char> = Vec::new();
    let mut i: usize = 0;
    while i < ls.len()
        invariant
            i <= ls@.len(),
            views(ls@) == lines_of(xrandr@),
            key@ == " connected"@,
            res@ == xrandr_resolution(views(ls@).subrange(0, i as int)),
        decreases ls@.len() - i,
    {
        assert(views(ls@).subrange(0, i + 1).drop_last() =~= views(ls@).subrange(0, i as int));
        assert(ls@[i as int]@ == views(ls@)[i as int]);
        if holds(&ls[i], &key) {
            let fields = split_char(&ls[i], ' ');
            assert(fields@.len() == views(fields@).len());
            if fields.len() >= 3 {
                assert(fields@[2]@ == views(fields@)[2]);
                res = fields[2].clone();
            }
        }
        i = i + 1;
    }
    assert(views(ls@).subrange(0, ls@.len() as int) =~= views(ls@));
    string_of(&res)
}

/// The last line of a text; empty where it has none.
pub open spec fn last_line(s: Seq<char>) -> Seq<char> {
    if lines_of(s).len() == 0 {
        Seq::empty()
    } else {
        lines_of(s).last()
    }
}

/// The kernel release in the output of `uname -r`: its last line.
pub fn get_kernel(output: &str) -> (r: String)
    ensures
        r@ == last_line(output@),
{
    let ls = lines(&chars_of(output));
    assert(ls@.len() == views(ls@).len());
    if ls.len() == 0 {
        String::new()
    } else {
        assert(ls@[ls@.len() - 1]@ == views(ls@)[ls@.len() - 1]);
        string_of(&ls[ls.len() - 1])
    }
}

/// Bytes read one character each, as code points below 256.
pub open spec fn latin1(b: Seq<u8>) -> Seq<char> {
    b.map_values(|x: u8| x as char)
}

/// A command's output, each byte read as one character, with the surrounding
/// whitespace taken off.
pub fn output_text(bytes: &Vec<u8>) -> (r: String)
    ensures
        r@ == trim(latin1(bytes@)),
{
    let mut chars: Vec<char> = Vec::new();
    let mut i: usize = 0;
    while i < bytes.len()
        invariant
            i <= bytes@.len(),
            chars@ == latin1(bytes@.subrange(0, i as int)),
        decreases bytes@.len() - i,
    {
        chars.push(bytes[i] as char);
        assert(chars@ =~= latin1(bytes@.subrange(0, i + 1)));
        i = i + 1;
    }
    assert(bytes@.subrange(0, bytes@.len() as int) =~= bytes@);
    string_of(&trimmed(&chars))
}

/// The interface of the default route in `/proc/net/route` lines: the first
/// tab-separated field of the last line that holds `00000000`.
pub open spec fn route_interface(ls: Seq<Seq<char>>) -> Seq<char>
    decreases ls.len(),
{
    if ls.len() == 0 {
        Seq::empty()
    } else if contains(ls.last(), "00000000"@) {
        split_on(ls.last(), '\t')[0]
    } else {
        route_interface(ls.drop_last())
    }
}

/// The interface of the default route, from the text of `/proc/net/route`.
pub fn default_interface(route: &str) -> (r: String)
    ensures
        r@ == route_interface(lines_of(route@)),
{
    let ls = lines(&chars_of(route));
    let key = chars_of("00000000");
    let mut iface: Vec<char> = Vec::new();
    let mut i: usize = 0;
    while i < ls.len()
        invariant
            i <= ls@.len(),
            views(ls@) == lines_of(route@),
            key@ == "00000000"@,
            iface@ == route_interface(views(ls@).subrange(0, i as int)),
        decreases ls@.len() - i,
    {
        assert(views(ls@).subrange(0, i + 1).drop_last() =~= views(ls@).subrange(0, i as int));
        assert(ls@[i as int]@ == views(ls@)[i as int]);
        if holds(&ls[i], &key) {
            let fields = split_char(&ls[i], '\t');
            proof {
                crate::text::lemma_split_nonempty(ls@[i as int]@, '\t');
            }
            assert(fields@.len() == views(fields@).len());
            assert(fields@[0]@ == views(fields@)[0]);
            iface = fields[0].clone();
        }
        i = i + 1;
    }
    assert(views(ls@).subrange(0, ls@.len() as int) =~= views(ls@));
    string_of(&iface)
}

/// The addresses in `ifconfig` items: of each item that holds `inet` and a
/// space, the text after its first space, up to the next, run together.
pub open spec fn inet_addresses(items: Seq<Seq<char>>) -> Seq<char>
    decreases items.len(),
{
    if items.len() == 0 {
        Seq::empty()
    } else {
        let it = items.last();
        if contains(it, "inet"@) && split_on(it, ' ').len() >= 2 {
            inet_addresses(items.drop_last()) + split_on(it, ' ')[1]
        } else {
            inet_addresses(items.drop_last())
        }
    }
}

/// The addresses on one `ifconfig` line: its items are what lies between double
/// spaces once tabs are taken out.
pub open spec fn line_addresses(l: Seq<char>) -> Seq<char> {
    inet_addresses(split_at_pattern(without(l, '\t'), "  "@))
}

/// The addresses found in `ifconfig` lines: those on each line that follows a
/// line naming `iface`.
pub open spec fn ifconfig_addresses(ls: Seq<Seq<char>>, iface: Seq<char>) -> Seq<char>
    decreases ls.len(),
{
    if ls.len() == 0 {
        Seq::empty()
    } else if ls.len() >= 2 && contains(ls[ls.len() - 2], iface) {
        ifconfig_addresses(ls.drop_last(), iface) + line_addresses(ls.last())
    } else {
        ifconfig_addresses(ls.drop_last(), iface)
    }
}

fn addresses_on_line(l: &Vec<char>) -> (r: Vec<char>)
    ensures
        r@ == line_addresses(l@),
{
    proof {
        reveal_strlit("  ");
    }
    let items = split_pattern(&remove_char(l, '\t'), &chars_of("  "));
    let inet = chars_of("inet");
    let mut out: Vec<char> = Vec::new();
    let mut j: usize = 0;
    while j < items.len()
        invariant
            j <= items@.len(),
            views(items@) == split_at_pattern(without(l@, '\t'), "  "@),
            inet@ == "inet"@,
            out@ == inet_addresses(views(items@).subrange(0, j as int)),
        decreases items@.len() - j,
    {
        assert(views(items@).subrange(0, j + 1).drop_last() =~= views(items@).subrange(
            0,
            j as int,
        ));
        assert(items@[j as int]@ == views(items@)[j as int]);
        if holds(&items[j], &inet) {
            let parts = split_char(&items[j], ' ');
            assert(parts@.len() == views(parts@).len());
            if parts.len() >= 2 {
                assert(parts@[1]@ == views(parts@)[1]);
                let ghost before = out@;
                let mut k: usize = 0;
                while k < parts[1].len()
                    invariant
                        k <= parts@[1]@.len(),
                        parts@.len() >= 2,
                        out@ == before + parts@[1]@.subrange(0, k as int),
                    decreases parts@[1]@.len() - k,
                {
                    out.push(parts[1][k]);
                    assert(out@ =~= before + parts@[1]@.subrange(0, k + 1));
                    k = k + 1;
                }
                assert(parts@[1]@.subrange(0, parts@[1]@.len() as int) =~= parts@[1]@);
            }
        }
        j = j + 1;
    }
    assert(views(items@).subrange(0, items@.len() as int) =~= views(items@));
    out
}

/// The addresses of `interface` in the output of `ifconfig <interface>`, then the
/// interface in parentheses.
pub fn get_ipaddr(ifconfig: &str, interface: &str) -> (r: String)
    ensures
        r@ == ifconfig_addresses(lines_of(ifconfig@), interface@) + " ("@ + interface@ + ")"@,
{
    let ls = lines(&chars_of(ifconfig));
    let key = chars_of(interface);
    let mut out: Vec<char> = Vec::new();
    let mut next = false;
    let mut i: usize = 0;
    while i < ls.len()
        invariant
            i <= ls@.len(),
            views(ls@) == lines_of(ifconfig@),
            key@ == interface@,
            out@ == ifconfig_addresses(views(ls@).subrange(0, i as int), interface@),
            next == (i > 0 && contains(views(ls@)[i - 1], interface@)),
        decreases ls@.len() - i,
    {
        let ghost pre = views(ls@).subrange(0, i + 1);
        assert(pre.drop_last() =~= views(ls@).subrange(0, i as int));
        assert(ls@[i as int]@ == views(ls@)[i as int]);
        if i > 0 {
            assert(pre[pre.len() - 2] == views(ls@)[i - 1]);
        }
        if next {
            let found = addresses_on_line(&ls[i]);
            let ghost before = out@;
            let mut k: usize = 0;
            while k < found.len()
                invariant
                    k <= found@.len(),
                    out@ == before + found@.subrange(0, k as int),
                decreases found@.len() - k,
            {
                out.push(found[k]);
                assert(out@ =~= before + found@.subrange(0, k + 1));
                k = k + 1;
            }
            assert(found@.subrange(0, found@.len() as int) =~= found@);
        }
        next = holds(&ls[i], &key);
        i = i + 1;
    }
    assert(views(ls@).subrange(0, ls@.len() as int) =~= views(ls@));
    string_of(&out).concat(" (").concat(interface).concat(")")
}

/// The graphics controller in `lspci -v` lines: the first line that holds `VGA`
/// or `3D` and `: ` gives what follows its first `: `, trimmed; empty where none
/// does.
pub open spec fn first_gpu(ls: Seq<Seq<char>>) -> Seq<char>
    decreases ls.len(),
{
    if ls.len() == 0 {
        Seq::empty()
    } else {
        let l = ls[0];
        if (contains(l, "VGA"@) || contains(l, "3D"@)) && contains(l, ": "@) {
            trim(after_first(l, ": "@))
        } else {
            first_gpu(ls.subrange(1, ls.len() as int))
        }
    }
}

/// What follows the first occurrence of `p` in `s`, which holds it.
#[verifier::opaque]
pub open spec fn after_first(s: Seq<char>, p: Seq<char>) -> Seq<char> {
    let i = choose|i: int|
        crate::text::occurs_at(s, p, i) && forall|j: int|
            0 <= j < i ==> !crate::text::occurs_at(s, p, j);
    s.subrange(i + p.len(), s.len() as int)
}

pub proof fn lemma_after_first(s: Seq<char>, p: Seq<char>, pos: int)
    requires
        crate::text::occurs_at(s, p, pos),
        forall|j: int| 0 <= j < pos ==> !crate::text::occurs_at(s, p, j),
    ensures
        after_first(s, p) == s.subrange(pos + p.len(), s.len() as int),
{
    reveal(after_first);
    let i = choose|i: int|
        crate::text::occurs_at(s, p, i) && forall|j: int|
            0 <= j < i ==> !crate::text::occurs_at(s, p, j);
    assert(i == pos) by {
        if i < pos {
            assert(!crate::text::occurs_at(s, p, i));
        } else if i > pos {
            assert(!crate::text::occurs_at(s, p, pos));
        }
    }
}

/// The index of the first occurrence of `p` in `s`.
pub fn find(s: &Vec<char>, p: &Vec<char>) -> (r: Option<usize>)
    ensures
        match r {
            Some(i) => crate::text::occurs_at(s@, p@, i as int) && forall|j: int|
                0 <= j < i ==> !crate::text::occurs_at(s@, p@, j),
            None => !contains(s@, p@),
        },
{
    if p.len() > s.len() {
        return None;
    }
    let last: usize = s.len() - p.len();
    let mut i: usize = 0;
    while i <= last
        invariant
            last == s@.len() - p@.len(),
            i <= last + 1,
            forall|k: int| 0 <= k < i ==> !crate::text::occurs_at(s@, p@, k),
        decreases last + 1 - i,
    {
        if crate::text::has_at(s, p, i) {
            return Some(i);
        }
        if i == last {
            return None;
        }
        i = i + 1;
    }
    None
}

/// The graphics controller named in the output of `lspci -v`.
pub fn get_gpu(lspci: &str) -> (r: String)
    ensures
        r@ == first_gpu(lines_of(lspci@)),
{
    let ls = lines(&chars_of(lspci));
    let vga = chars_of("VGA");
    let three_d = chars_of("3D");
    let sep = chars_of(": ");
    proof {
        reveal_strlit(": ");
    }
    let mut i: usize = 0;
    assert(views(ls@).subrange(0, ls@.len() as int) =~= views(ls@));
    while i < ls.len()
        invariant
            i <= ls@.len(),
            views(ls@) == lines_of(lspci@),
            vga@ == "VGA"@,
            three_d@ == "3D"@,
            sep@ == ": "@,
            sep@.len() == 2,
            first_gpu(views(ls@).subrange(i as int, ls@.len() as int)) == first_gpu(
                lines_of(lspci@),
            ),
        decreases ls@.len() - i,
    {
        let ghost rest = views(ls@).subrange(i as int, ls@.len() as int);
        assert(rest[0] == ls@[i as int]@);
        assert(rest.subrange(1, rest.len() as int) =~= views(ls@).subrange(
            i + 1,
            ls@.len() as int,
        ));
        if holds(&ls[i], &vga) || holds(&ls[i], &three_d) {
            let n = ls[i].len();
            match find(&ls[i], &sep) {
                Some(pos) => {
                    assert(pos + 2 <= n);
                    let tail = crate::text::slice(&ls[i], pos + 2, n);
                    proof {
                        lemma_after_first(ls@[i as int]@, ": "@, pos as int);
                    }
                    return string_of(&trimmed(&tail));
                },
                None => {},
            }
        }
        i = i + 1;
    }
    assert(views(ls@).subrange(i as int, ls@.len() as int).len() == 0);
    String::new()
}

} // verus!
