use vstd::prelude::*;

use crate::layout::{detail_slot, lemma_paired_lines, paired_count, paired_total, skip_of};
use crate::text::chars_of;

verus! {

/// How a detail row is drawn.
#[derive(Clone, Copy, Debug, PartialEq, Eq, Structural)]
pub enum ActionType {
    /// `user@host`, both in the chosen color.
    HostInfo,
    /// A rule of dashes.
    Delimiter,
    /// A label in the chosen color, padded, then ` : ` and the value.
    Details,
    /// A row of color swatches.
    Colors,
}

/// A piece of output text and the style it is printed in; no style is plain text.
pub struct Segment {
    pub text: String,
    pub style: Option<String>,
}

impl Segment {
    /// The text and style as plain values.
    pub open spec fn view_pair(&self) -> (Seq<char>, Option<Seq<char>>) {
        (
            self.text@,
            match self.style {
                Some(s) => Some(s@),
                None => None,
            },
        )
    }
}

/// The plain values of a sequence of segments.
pub open spec fn segment_views(v: Seq<Segment>) -> Seq<(Seq<char>, Option<Seq<char>>)> {
    v.map_values(|s: Segment| s.view_pair())
}

/// `n` spaces.
pub open spec fn spaces(n: nat) -> Seq<char> {
    Seq::new(n, |i: int| ' ')
}

/// The segments of one detail row: four spaces of indent, then what the kind
/// asks for. A label is padded with spaces to twelve characters.
pub open spec fn detail_segments(
    title: Seq<char>,
    value: Seq<char>,
    atype: ActionType,
    color: Seq<char>,
) -> Seq<(Seq<char>, Option<Seq<char>>)> {
    let indent = seq![("    "@, None::<Seq<char>>)];
    let bold = color + "_bold"@;
    indent + match atype {
        ActionType::Details => seq![
            (title, Some(bold)),
            (spaces((12 - title.len()) as nat), None),
            (" : "@, Some("white_bold"@)),
            (value, None),
        ],
        ActionType::Delimiter => seq![("-----------------------------"@, Some("white"@))],
        ActionType::HostInfo => seq![
            (title, Some(bold)),
            ("@"@, Some("white_bold"@)),
            (value, Some(bold)),
        ],
        ActionType::Colors => seq![
            ("████"@, Some("black"@)),
            ("████"@, Some("red"@)),
            ("████"@, Some("green"@)),
            ("████"@, Some("yellow"@)),
            ("████"@, Some("blue"@)),
            ("████"@, Some("magenta"@)),
        ],
    }
}

fn styled(text: &str, style: &str) -> (r: Segment)
    ensures
        r.view_pair() == (text@, Some(style@)),
{
    Segment { text: String::from_str(text), style: Some(String::from_str(style)) }
}

fn space_run(n: usize) -> (r: String)
    ensures
        r@ == spaces(n as nat),
{
    let mut v: Vec<char> = Vec::new();
    let mut i: usize = 0;
    while i < n
        invariant
            i <= n,
            v@ == spaces(i as nat),
        decreases n - i,
    {
        v.push(' ');
        assert(v@ =~= spaces((i + 1) as nat));
        i = i + 1;
    }
    crate::text::string_of(&v)
}

/// The segments of one detail row; a label has at most twelve characters.
pub fn print_detail(title: &str, value: &str, atype: ActionType, color: &str) -> (r: Vec<
    Segment,
>)
    requires
        atype == ActionType::Details ==> title@.len() <= 12,
    ensures
        segment_views(r@) == detail_segments(title@, value@, atype, color@),
{
    let mut r: Vec<Segment> = Vec::new();
    r.push(Segment { text: String::from_str("    "), style: None });
    let bold = String::from_str(color).concat("_bold");
    match atype {
        ActionType::Details => {
            let n = chars_of(title).len();
            r.push(styled(title, bold.as_str()));
            r.push(Segment { text: space_run(12 - n), style: None });
            r.push(styled(" : ", "white_bold"));
            r.push(Segment { text: String::from_str(value), style: None });
        },
        ActionType::Delimiter => {
            r.push(styled("-----------------------------", "white"));
        },
        ActionType::HostInfo => {
            r.push(styled(title, bold.as_str()));
            r.push(styled("@", "white_bold"));
            r.push(styled(value, bold.as_str()));
        },
        ActionType::Colors => {
            r.push(styled("████", "black"));
            r.push(styled("████", "red"));
            r.push(styled("████", "green"));
            r.push(styled("████", "yellow"));
            r.push(styled("████", "blue"));
            r.push(styled("████", "magenta"));
        },
    }
    assert(segment_views(r@) =~= detail_segments(title@, value@, atype, color@));
    r
}

/// The system a run happens on; the rows shown differ between them.
#[derive(Clone, Copy, Debug, PartialEq, Eq, Structural)]
pub enum Platform {
    Linux,
    Windows,
    MacOs,
}

/// Which piece of system information a row shows.
#[derive(Clone, Copy, Debug, PartialEq, Eq, Structural)]
pub enum Detail {
    Hostname,
    Distro,
    Product,
    Kernel,
    Arch,
    Shell,
    Resolution,
    Ip,
    Cpu,
    DiskUsage,
    Gpu,
    Gpus,
    InitSystem,
    Uptime,
}

/// One row beside the art: how it is drawn, its label, and what it shows.
pub struct Action {
    pub action_type: ActionType,
    pub name: Option<String>,
    pub func: Option<Detail>,
}

impl Action {
    /// The row as plain values.
    pub open spec fn view_triple(&self) -> (ActionType, Option<Seq<char>>, Option<Detail>) {
        (
            self.action_type,
            match self.name {
                Some(n) => Some(n@),
                None => None,
            },
            self.func,
        )
    }
}

/// A labelled row of system information.
pub open spec fn labelled(name: Seq<char>, d: Detail) -> (
    ActionType,
    Option<Seq<char>>,
    Option<Detail>,
) {
    (ActionType::Details, Some(name), Some(d))
}

/// The rows shown beside the art on platform `p`, top to bottom.
pub open spec fn action_table(p: Platform) -> Seq<(ActionType, Option<Seq<char>>, Option<Detail>)> {
    let head = seq![
        (ActionType::HostInfo, None::<Seq<char>>, Some(Detail::Hostname)),
        (ActionType::Delimiter, None::<Seq<char>>, None::<Detail>),
    ];
    let system = match p {
        Platform::Linux => seq![labelled("Distro"@, Detail::Distro), labelled("Kernel"@, Detail::Kernel)],
        Platform::Windows => seq![labelled("Product"@, Detail::Product)],
        Platform::MacOs => Seq::empty(),
    };
    let common = seq![
        labelled("Arch"@, Detail::Arch),
        labelled("Shell"@, Detail::Shell),
        labelled("Resolution"@, Detail::Resolution),
        labelled("IP"@, Detail::Ip),
        labelled("CPU"@, Detail::Cpu),
    ];
    let windows_only = match p {
        Platform::Windows => seq![
            labelled("Disk usage"@, Detail::DiskUsage),
            labelled("GPU"@, Detail::Gpu),
        ],
        _ => Seq::empty(),
    };
    let init = match p {
        Platform::Linux => seq![labelled("Init System"@, Detail::InitSystem)],
        _ => Seq::empty(),
    };
    let tail = seq![
        (ActionType::Delimiter, None::<Seq<char>>, None::<Detail>),
        (ActionType::Colors, None::<Seq<char>>, None::<Detail>),
    ];
    head + system + common + windows_only + seq![labelled("GPU"@, Detail::Gpus)] + init + seq![
        labelled("Uptime"@, Detail::Uptime),
    ] + tail
}

/// The plain values of a sequence of rows.
pub open spec fn action_views(v: Seq<Action>) -> Seq<(ActionType, Option<Seq<char>>, Option<Detail>)> {
    v.map_values(|a: Action| a.view_triple())
}

fn push_row(rows: &mut Vec<Action>, name: &str, d: Detail)
    ensures
        action_views(final(rows)@) == action_views(old(rows)@).push(labelled(name@, d)),
{
    rows.push(Action { action_type: ActionType::Details, name: Some(String::from_str(name)), func: Some(d) });
    assert(action_views(final(rows)@) =~= action_views(old(rows)@).push(labelled(name@, d)));
}

fn push_plain(rows: &mut Vec<Action>, t: ActionType, d: Option<Detail>)
    ensures
        action_views(final(rows)@) == action_views(old(rows)@).push((t, None::<Seq<char>>, d)),
{
    rows.push(Action { action_type: t, name: None, func: d });
    assert(action_views(final(rows)@) =~= action_views(old(rows)@).push((t, None::<Seq<char>>, d)));
}

/// The rows shown beside the art on platform `p`, top to bottom.
pub fn actions(p: Platform) -> (r: Vec<Action>)
    ensures
        action_views(r@) == action_table(p),
{
    let mut r: Vec<Action> = Vec::new();
    push_plain(&mut r, ActionType::HostInfo, Some(Detail::Hostname));
    push_plain(&mut r, ActionType::Delimiter, None);
    match p {
        Platform::Linux => {
            push_row(&mut r, "Distro", Detail::Distro);
            push_row(&mut r, "Kernel", Detail::Kernel);
        },
        Platform::Windows => {
            push_row(&mut r, "Product", Detail::Product);
        },
        Platform::MacOs => {},
    }
    push_row(&mut r, "Arch", Detail::Arch);
    push_row(&mut r, "Shell", Detail::Shell);
    push_row(&mut r, "Resolution", Detail::Resolution);
    push_row(&mut r, "IP", Detail::Ip);
    push_row(&mut r, "CPU", Detail::Cpu);
    if p == Platform::Windows {
        push_row(&mut r, "Disk usage", Detail::DiskUsage);
        push_row(&mut r, "GPU", Detail::Gpu);
    }
    push_row(&mut r, "GPU", Detail::Gpus);
    if p == Platform::Linux {
        push_row(&mut r, "Init System", Detail::InitSystem);
    }
    push_row(&mut r, "Uptime", Detail::Uptime);
    push_plain(&mut r, ActionType::Delimiter, None);
    push_plain(&mut r, ActionType::Colors, None);
    assert(action_views(r@) =~= action_table(p));
    r
}

/// Drawing an art of `total_lines` lines (at least twelve) beside the rows of
/// platform `p`: exactly `min(rows, total_lines - skip)` art lines carry a row;
/// line `skip + k` carries row `k` of the table, so the rows keep the table's
/// order, none repeated or left out before the last shown, and the first row
/// shown is the `user@host` banner.
pub proof fn lemma_rows_beside_art(total_lines: u16, p: Platform)
    requires
        total_lines >= 12,
    ensures
        paired_count(total_lines as int, action_table(p).len() as int, total_lines as int)
            == paired_total(total_lines as int, action_table(p).len() as int),
        forall|k: int|
            0 <= k < paired_total(total_lines as int, action_table(p).len() as int)
                ==> detail_slot(
                total_lines as int,
                action_table(p).len() as int,
                #[trigger] (skip_of(total_lines as int) + k),
            ) == Some(k),
        paired_total(total_lines as int, action_table(p).len() as int) > 0,
        action_table(p)[0].0 == ActionType::HostInfo,
{
    let m = action_table(p).len();
    assert(m >= 11);
    lemma_paired_lines(total_lines, m as usize);
}

} // verus!
