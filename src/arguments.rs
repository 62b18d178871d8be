use vstd::prelude::*;

use crate::art::{art_names, is_boykisser_name, list_text};
use crate::display::Platform;
use crate::text::{
    chars_of, has_at, lemma_split_extend, lemma_split_whole, occurs_at, same, split_char, split_on,
    string_of, string_views,
};

verus! {

/// The colors the art can be drawn in.
pub open spec fn color_names() -> Seq<Seq<char>> {
    seq![
        "black"@,
        "red"@,
        "green"@,
        "yellow"@,
        "blue"@,
        "magenta"@,
        "cyan"@,
        "white"@,
    ]
}

/// The colors the art can be drawn in.
pub fn color_list() -> (r: Vec<String>)
    ensures
        string_views(r@) == color_names(),
{
    let mut r: Vec<String> = Vec::new();
    r.push(String::from_str("black"));
    r.push(String::from_str("red"));
    r.push(String::from_str("green"));
    r.push(String::from_str("yellow"));
    r.push(String::from_str("blue"));
    r.push(String::from_str("magenta"));
    r.push(String::from_str("cyan"));
    r.push(String::from_str("white"));
    assert(string_views(r@) =~= color_names());
    r
}

/// Why the command line was refused.
#[derive(PartialEq, Eq, Structural, Clone, Copy, Debug)]
pub enum ArgError {
    /// An option that takes a value came without `=`.
    InvalidArgument,
    /// The color named is not one of the colors.
    InvalidColor,
    /// The art named is not one of the arts.
    InvalidBoykisser,
}

impl ArgError {
    /// The message shown for this error.
    pub fn message(&self) -> (r: String)
        ensures
            r@ == match *self {
                ArgError::InvalidArgument => "Invalid argument provided."@,
                ArgError::InvalidColor => "Invalid color provided."@,
                ArgError::InvalidBoykisser => "Invalid boykisser provided."@,
            },
    {
        match self {
            ArgError::InvalidArgument => String::from_str("Invalid argument provided."),
            ArgError::InvalidColor => String::from_str("Invalid color provided."),
            ArgError::InvalidBoykisser => String::from_str("Invalid boykisser provided."),
        }
    }
}

/// What a single command-line word asks for.
pub enum ArgKind {
    Help,
    Color,
    Boykisser,
    List,
    Other,
}

/// What a command-line word asks for, tested in this order: help, then a word
/// that starts with `--color` or `-c`, then one that starts with `--boykisser` or
/// `-b`, then the list.
pub open spec fn arg_kind(a: Seq<char>) -> ArgKind {
    if a == "--help"@ || a == "-h"@ {
        ArgKind::Help
    } else if occurs_at(a, "--color"@, 0) || occurs_at(a, "-c"@, 0) {
        ArgKind::Color
    } else if occurs_at(a, "--boykisser"@, 0) || occurs_at(a, "-b"@, 0) {
        ArgKind::Boykisser
    } else if a == "--list"@ || a == "-l"@ {
        ArgKind::List
    } else {
        ArgKind::Other
    }
}

/// The value of an option word: the text between its first and second `=`.
pub open spec fn option_value(a: Seq<char>) -> Option<Seq<char>> {
    if split_on(a, '=').len() < 2 {
        None
    } else {
        Some(split_on(a, '=')[1])
    }
}

/// The settings as plain values: help asked, color, list asked, art name.
pub type Settings = (bool, Seq<char>, bool, Seq<char>);

/// The settings after one more command-line word, on platform `p`.
pub open spec fn step(st: Settings, a: Seq<char>, p: Platform) -> Result<Settings, ArgError> {
    match arg_kind(a) {
        ArgKind::Help => Ok((true, st.1, st.2, st.3)),
        ArgKind::Color => match option_value(a) {
            None => Err(ArgError::InvalidArgument),
            Some(v) => if color_names().contains(v) {
                Ok((st.0, v, st.2, st.3))
            } else {
                Err(ArgError::InvalidColor)
            },
        },
        ArgKind::Boykisser => match option_value(a) {
            None => Err(ArgError::InvalidArgument),
            Some(v) => if art_names(p).contains(v) {
                Ok((st.0, st.1, st.2, v))
            } else {
                Err(ArgError::InvalidBoykisser)
            },
        },
        ArgKind::List => Ok((st.0, st.1, true, st.3)),
        ArgKind::Other => Ok(st),
    }
}

/// The settings after the words `args`, in order, on platform `p`; the first
/// refused word decides.
pub open spec fn scan(args: Seq<Seq<char>>, p: Platform) -> Result<Settings, ArgError>
    decreases args.len(),
{
    if args.len() == 0 {
        Ok((false, Seq::empty(), false, Seq::empty()))
    } else {
        match scan(args.drop_last(), p) {
            Err(e) => Err(e),
            Ok(st) => step(st, args.last(), p),
        }
    }
}

proof fn lemma_scan_stops(args: Seq<Seq<char>>, j: int, e: ArgError, p: Platform)
    requires
        0 <= j <= args.len(),
        scan(args.subrange(0, j), p) == Err::<Settings, ArgError>(e),
    ensures
        scan(args, p) == Err::<Settings, ArgError>(e),
    decreases args.len(),
{
    if j < args.len() {
        assert(args.drop_last().subrange(0, j) =~= args.subrange(0, j));
        lemma_scan_stops(args.drop_last(), j, e, p);
    } else {
        assert(args.subrange(0, j) =~= args);
    }
}

/// The settings that the words `args` give on platform `p`, with white and
/// `howyoulook` where no color or art was named.
pub open spec fn parsed(args: Seq<Seq<char>>, p: Platform) -> Result<Settings, ArgError> {
    parsed_settings(scan(args, p))
}

/// Scanned settings with white and `howyoulook` where no color or art was named.
pub open spec fn parsed_settings(scanned: Result<Settings, ArgError>) -> Result<Settings, ArgError> {
    match scanned {
        Err(e) => Err(e),
        Ok(st) => Ok(
            (
                st.0,
                if st.1.len() == 0 {
                    "white"@
                } else {
                    st.1
                },
                st.2,
                if st.3.len() == 0 {
                    "howyoulook"@
                } else {
                    st.3
                },
            ),
        ),
    }
}

/// What the program does once the command line is read.
#[derive(PartialEq, Eq, Structural, Clone, Copy, Debug)]
pub enum Request {
    /// Print the usage and stop.
    Help,
    /// Print the art names and stop.
    List,
    /// Draw the art beside the details.
    Show,
}

/// The command-line settings.
#[derive(Debug)]
pub struct Arguments {
    pub help: bool,
    pub color: String,
    pub list: bool,
    pub boykisser: String,
}

impl Arguments {
    /// The settings as plain values.
    pub open spec fn settings(&self) -> Settings {
        (self.help, self.color@, self.list, self.boykisser@)
    }

    /// `color` where it names a color.
    pub fn validate_color(color: String) -> (r: Result<String, ArgError>)
        ensures
            color_names().contains(color@) ==> (r matches Ok(c) && c@ == color@),
            !color_names().contains(color@) ==> r == Err::<String, ArgError>(
                ArgError::InvalidColor,
            ),
    {
        let colors = color_list();
        let mut i: usize = 0;
        while i < colors.len()
            invariant
                i <= colors@.len(),
                string_views(colors@) == color_names(),
                forall|k: int| 0 <= k < i ==> color_names()[k] != color@,
            decreases colors@.len() - i,
        {
            if colors[i] == color {
                assert(color_names()[i as int] == color@);
                return Ok(color);
            }
            i = i + 1;
        }
        Err(ArgError::InvalidColor)
    }

    /// `boykisser` where it names an art on platform `p`.
    pub fn validate_boykisser(boykisser: String, p: Platform) -> (r: Result<String, ArgError>)
        ensures
            art_names(p).contains(boykisser@) ==> (r matches Ok(b) && b@ == boykisser@),
            !art_names(p).contains(boykisser@) ==> r == Err::<String, ArgError>(
                ArgError::InvalidBoykisser,
            ),
    {
        if is_boykisser_name(&boykisser, p) {
            Ok(boykisser)
        } else {
            Err(ArgError::InvalidBoykisser)
        }
    }

    /// The value of an option word: the text after its first `=`, up to the next.
    pub fn get_args(arg: &str) -> (r: Result<String, ArgError>)
        ensures
            match option_value(arg@) {
                None => r == Err::<String, ArgError>(ArgError::InvalidArgument),
                Some(v) => r matches Ok(s) && s@ == v,
            },
    {
        let chars = chars_of(arg);
        let pieces = split_char(&chars, '=');
        assert(pieces@.len() == split_on(arg@, '=').len());
        if pieces.len() < 2 {
            return Err(ArgError::InvalidArgument);
        }
        assert(pieces@[1]@ == split_on(arg@, '=')[1]);
        Ok(string_of(&pieces[1]))
    }

    /// The settings after one more command-line word.
    fn apply(&mut self, arg: &String, p: Platform) -> (r: Result<(), ArgError>)
        ensures
            match step(old(self).settings(), arg@, p) {
                Ok(st) => r is Ok && final(self).settings() == st,
                Err(e) => r == Err::<(), ArgError>(e),
            },
    {
        let a = chars_of(arg.as_str());
        if same(&a, &chars_of("--help")) || same(&a, &chars_of("-h")) {
            self.help = true;
        } else if has_at(&a, &chars_of("--color"), 0) || has_at(&a, &chars_of("-c"), 0) {
            let v = Self::get_args(arg.as_str())?;
            self.color = Self::validate_color(v)?;
        } else if has_at(&a, &chars_of("--boykisser"), 0) || has_at(&a, &chars_of("-b"), 0) {
            let v = Self::get_args(arg.as_str())?;
            self.boykisser = Self::validate_boykisser(v, p)?;
        } else if same(&a, &chars_of("--list")) || same(&a, &chars_of("-l")) {
            self.list = true;
        }
        Ok(())
    }

    /// The settings that the command-line words `args` give on platform `p`, in
    /// order; the first refused word decides the error.
    pub fn parse(args: &Vec<String>, p: Platform) -> (r: Result<Arguments, ArgError>)
        ensures
            match parsed(string_views(args@), p) {
                Ok(st) => r matches Ok(a) && a.settings() == st,
                Err(e) => r matches Err(x) && x == e,
            },
    {
        let mut out = Arguments {
            help: false,
            list: false,
            color: String::new(),
            boykisser: String::new(),
        };
        let mut i: usize = 0;
        assert(string_views(args@).subrange(0, 0) =~= Seq::<Seq<char>>::empty());
        while i < args.len()
            invariant
                i <= args@.len(),
                scan(string_views(args@).subrange(0, i as int), p) == Ok::<Settings, ArgError>(
                    out.settings(),
                ),
            decreases args@.len() - i,
        {
            assert(string_views(args@).subrange(0, i + 1).drop_last() =~= string_views(
                args@,
            ).subrange(0, i as int));
            assert(string_views(args@)[i as int] == args@[i as int]@);
            match out.apply(&args[i], p) {
                Ok(()) => {},
                Err(e) => {
                    proof {
                        lemma_scan_stops(string_views(args@), i + 1, e, p);
                    }
                    return Err(e);
                },
            }
            i = i + 1;
        }
        assert(string_views(args@).subrange(0, args@.len() as int) =~= string_views(args@));
        if out.color.as_str().is_empty() {
            out.color = String::from_str("white");
        }
        if out.boykisser.as_str().is_empty() {
            out.boykisser = String::from_str("howyoulook");
        }
        Ok(out)
    }

    /// What the program does with these settings: help comes before the list.
    pub fn request(&self) -> (r: Request)
        ensures
            r == if self.help {
                Request::Help
            } else if self.list {
                Request::List
            } else {
                Request::Show
            },
    {
        if self.help {
            Request::Help
        } else if self.list {
            Request::List
        } else {
            Request::Show
        }
    }
}

/// One more word after `args`: the scan goes on from where `args` left it.
proof fn lemma_scan_push(args: Seq<Seq<char>>, a: Seq<char>, p: Platform)
    ensures
        scan(args.push(a), p) == match scan(args, p) {
            Err(e) => Err(e),
            Ok(st) => step(st, a, p),
        },
{
    assert(args.push(a).drop_last() =~= args);
}

/// The value of `prefix + v`, where `prefix` ends in its only `=` and `v` holds none, is `v`.
proof fn lemma_value_after(prefix: Seq<char>, v: Seq<char>)
    requires
        prefix.len() >= 1,
        prefix.last() == '=',
        forall|i: int| 0 <= i < prefix.len() - 1 ==> prefix[i] != '=',
        forall|i: int| 0 <= i < v.len() ==> v[i] != '=',
    ensures
        option_value(prefix + v) == Some(v),
{
    let head = prefix.drop_last();
    lemma_split_whole(head, '=');
    assert(head.push('=') =~= prefix);
    assert(split_on(prefix, '=') == seq![head, Seq::<char>::empty()]);
    lemma_split_extend(prefix, v, '=');
    assert(Seq::<char>::empty() + v =~= v);
}

/// Naming a color as `--color=<name>`, where the name holds no `=`, after any
/// words `args` (the program's name first among them): where the words before
/// are accepted, the command line is accepted with that color exactly when it is
/// one of the colors; where it is not a color, the command line is refused.
pub proof fn lemma_color_selection(args: Seq<Seq<char>>, name: Seq<char>, p: Platform)
    requires
        forall|i: int| 0 <= i < name.len() ==> name[i] != '=',
    ensures
        color_names().contains(name) && scan(args, p) is Ok ==> (parsed(
            args.push("--color="@ + name),
            p,
        ) matches Ok(st) && st.1 == name),
        !color_names().contains(name) ==> parsed(args.push("--color="@ + name), p) is Err,
{
    reveal_strlit("--color=");
    reveal_strlit("--color");
    reveal_strlit("--help");
    reveal_strlit("-h");
    let a = "--color="@ + name;
    lemma_value_after("--color="@, name);
    lemma_scan_push(args, a, p);
    assert(a.subrange(0, 7) =~= "--color"@);
    assert(a.len() != "--help"@.len());
    assert(a.len() != "-h"@.len());
    if color_names().contains(name) {
        assert(name.len() > 0) by {
            reveal_strlit("black");
            reveal_strlit("red");
            reveal_strlit("green");
            reveal_strlit("yellow");
            reveal_strlit("blue");
            reveal_strlit("magenta");
            reveal_strlit("cyan");
            reveal_strlit("white");
        }
    }
}

/// Naming an art as `--boykisser=<name>`, where the name holds no `=`, after any
/// words `args` (the program's name first among them): where the words before
/// are accepted, the command line is accepted with that art exactly when it is
/// one of the arts of platform `p`; where it is not, the command line is refused.
pub proof fn lemma_boykisser_selection(args: Seq<Seq<char>>, name: Seq<char>, p: Platform)
    requires
        forall|i: int| 0 <= i < name.len() ==> name[i] != '=',
    ensures
        art_names(p).contains(name) && scan(args, p) is Ok ==> (parsed(
            args.push("--boykisser="@ + name),
            p,
        ) matches Ok(st) && st.3 == name),
        !art_names(p).contains(name) ==> parsed(args.push("--boykisser="@ + name), p) is Err,
{
    reveal_strlit("--boykisser=");
    reveal_strlit("--boykisser");
    reveal_strlit("--color");
    reveal_strlit("--help");
    reveal_strlit("-h");
    reveal_strlit("-c");
    let a = "--boykisser="@ + name;
    lemma_value_after("--boykisser="@, name);
    lemma_scan_push(args, a, p);
    assert(a.subrange(0, 11) =~= "--boykisser"@);
    assert(a.subrange(0, 7) != "--color"@) by {
        assert(a.subrange(0, 7)[2] == 'b');
    }
    assert(a.subrange(0, 2) != "-c"@) by {
        assert(a.subrange(0, 2)[1] == '-');
    }
    assert(a.len() != "--help"@.len());
    assert(a.len() != "-h"@.len());
    if art_names(p).contains(name) {
        assert(name.len() > 0) by {
            reveal_strlit("withhighthighs");
            reveal_strlit("howyoulook");
            reveal_strlit("ahhhaah");
            reveal_strlit("cute");
            reveal_strlit("cutereversed");
            reveal_strlit("cutie");
            reveal_strlit("sad");
            reveal_strlit("sowhat");
            reveal_strlit("squinting");
            reveal_strlit("thesilly_large");
            reveal_strlit("thesilly");
            reveal_strlit("typing");
            reveal_strlit("withhighthighsalt");
            reveal_strlit("yayyy");
            reveal_strlit("yippie");
            reveal_strlit("youafurry");
            reveal_strlit("youlikeboys");
            reveal_strlit("youlikeboysfullbody");
        }
    }
}

/// `--list` after accepted words `args` that asked for no help: the settings ask
/// for the list and not for help, so the program prints the list and stops
/// without drawing; the list holds every art name of the platform, each on a
/// line of its own after the heading.
pub proof fn lemma_list_request(args: Seq<Seq<char>>, p: Platform)
    ensures
        scan(args, p) matches Ok(st) && !st.0 ==> (parsed(args.push("--list"@), p) matches Ok(r)
            && r.2 && !r.0),
        list_text(p).len() == art_names(p).len() + 1,
        forall|i: int|
            0 <= i < art_names(p).len() ==> #[trigger] list_text(p)[i + 1] == "    "@
                + art_names(p)[i],
{
    reveal_strlit("--list");
    reveal_strlit("--help");
    reveal_strlit("-h");
    reveal_strlit("-c");
    reveal_strlit("-b");
    reveal_strlit("--color");
    reveal_strlit("--boykisser");
    let a = "--list"@;
    lemma_scan_push(args, a, p);
    assert(a.subrange(0, 2) != "-c"@) by {
        assert(a.subrange(0, 2)[1] == '-');
    }
    assert(a.subrange(0, 2) != "-b"@) by {
        assert(a.subrange(0, 2)[1] == '-');
    }
}

/// A word that asks for the list.
pub open spec fn is_list_word(a: Seq<char>) -> bool {
    a == "--list"@ || a == "-l"@
}

/// A word that asks for help.
pub open spec fn is_help_word(a: Seq<char>) -> bool {
    a == "--help"@ || a == "-h"@
}

/// A word asks for the list exactly when it is `--list` or `-l`.
proof fn lemma_list_kind(a: Seq<char>)
    ensures
        arg_kind(a) is List <==> is_list_word(a),
{
    reveal_strlit("--list");
    reveal_strlit("-l");
    reveal_strlit("--help");
    reveal_strlit("-h");
    reveal_strlit("-c");
    reveal_strlit("-b");
    reveal_strlit("--color");
    reveal_strlit("--boykisser");
    if a == "--list"@ {
        assert(a[2] != "--help"@[2]);
        assert(a.subrange(0, 2)[1] != "-c"@[1]);
        assert(a.subrange(0, 2)[1] != "-b"@[1]);
    }
    if a == "-l"@ {
        assert(a[1] != "-h"@[1]);
        assert(a.subrange(0, 2)[1] != "-c"@[1]);
        assert(a.subrange(0, 2)[1] != "-b"@[1]);
    }
}

/// Accepted words ask for the list exactly when one of them, wherever it stands,
/// is `--list` or `-l`, and for help exactly when one of them is `--help` or `-h`.
/// So where a list word stands among accepted words and no help word does, the
/// program prints the list and stops without drawing.
pub proof fn lemma_list_anywhere(args: Seq<Seq<char>>, p: Platform)
    ensures
        scan(args, p) matches Ok(st) ==> (st.2 <==> exists|i: int|
            0 <= i < args.len() && is_list_word(#[trigger] args[i])) && (st.0 <==> exists|i: int|
            0 <= i < args.len() && is_help_word(#[trigger] args[i])),
        parsed(args, p) matches Ok(st) ==> (st.2 <==> exists|i: int|
            0 <= i < args.len() && is_list_word(#[trigger] args[i])) && (st.0 <==> exists|i: int|
            0 <= i < args.len() && is_help_word(#[trigger] args[i])),
    decreases args.len(),
{
    if args.len() > 0 {
        let init = args.drop_last();
        let a = args.last();
        lemma_list_anywhere(init, p);
        lemma_list_kind(a);
        assert forall|i: int| 0 <= i < init.len() implies #[trigger] init[i] == args[i] by {}
        if scan(args, p) is Ok {
            assert(scan(init, p) is Ok);
            let st0 = scan(init, p)->Ok_0;
            let st = scan(args, p)->Ok_0;
            assert(step(st0, a, p) == Ok::<Settings, ArgError>(st));
            if st.2 && !is_list_word(a) {
                assert(st0.2);
                let i = choose|i: int| 0 <= i < init.len() && is_list_word(#[trigger] init[i]);
                assert(args[i] == init[i]);
            }
            if !st.2 {
                assert forall|i: int| 0 <= i < args.len() implies !is_list_word(
                    #[trigger] args[i],
                ) by {
                    if i < init.len() {
                        assert(init[i] == args[i]);
                    }
                }
            }
            if st.2 && is_list_word(a) {
                assert(is_list_word(args[args.len() - 1]));
            }
            if st.0 && !is_help_word(a) {
                assert(st0.0);
                let i = choose|i: int| 0 <= i < init.len() && is_help_word(#[trigger] init[i]);
                assert(args[i] == init[i]);
            }
            if !st.0 {
                assert forall|i: int| 0 <= i < args.len() implies !is_help_word(
                    #[trigger] args[i],
                ) by {
                    if i < init.len() {
                        assert(init[i] == args[i]);
                    }
                }
            }
            if st.0 && is_help_word(a) {
                assert(is_help_word(args[args.len() - 1]));
            }
        }
    }
}

} // verus!
