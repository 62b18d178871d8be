use boykisserfetch::arguments::{ArgError, Arguments, Request};
use boykisserfetch::art::{
    boykisser_names, display_lines, get_boykisser, is_boykisser_name, list_lines, print_boykisserline,
    shown_text,
};
use boykisserfetch::display::Platform;
use boykisserfetch::layout::{detail_index, layout_plan};

fn words(v: &[&str]) -> Vec<String> {
    v.iter().map(|s| s.to_string()).collect()
}

fn paired(total: u16, details: usize) -> usize {
    layout_plan(total, details).iter().filter(|d| d.is_some()).count()
}

#[test]
fn first_detail_sits_at_offset() {
    // thirty lines: offset 15 - 6 = 9
    assert_eq!(detail_index(30, 14, 8), None);
    assert_eq!(detail_index(30, 14, 9), Some(0));
    assert_eq!(detail_index(30, 14, 22), Some(13));
    assert_eq!(detail_index(30, 14, 23), None);
}

#[test]
fn short_art_starts_details_before_first_line() {
    // four lines: offset 2 - 6 = -4, so line 0 shows detail 4
    assert_eq!(detail_index(4, 14, 0), Some(4));
    assert_eq!(detail_index(4, 14, 3), Some(7));
}

#[test]
fn paired_lines_are_min_of_details_and_room() {
    assert_eq!(paired(30, 14), 14);
    assert_eq!(paired(20, 14), 14);
    assert_eq!(paired(12, 14), 12);
    assert_eq!(paired(13, 14), 13);
    assert_eq!(paired(40, 3), 3);
    assert_eq!(paired(30, 0), 0);
    assert_eq!(layout_plan(0, 14).len(), 0);
}

#[test]
fn defaults_when_nothing_named() {
    let a = Arguments::parse(&words(&["boykisserfetch"]), Platform::Linux).unwrap();
    assert_eq!(a.color, "white");
    assert_eq!(a.boykisser, "howyoulook");
    assert!(!a.help);
    assert!(!a.list);
    assert_eq!(a.request(), Request::Show);
}

#[test]
fn every_color_is_accepted() {
    for c in ["black", "red", "green", "yellow", "blue", "magenta", "cyan", "white"] {
        let a = Arguments::parse(&words(&["prog", &format!("--color={}", c)]), Platform::Linux).unwrap();
        assert_eq!(a.color, c);
        let b = Arguments::parse(&words(&["prog", &format!("-c={}", c)]), Platform::Linux).unwrap();
        assert_eq!(b.color, c);
    }
}

#[test]
fn unknown_color_is_refused() {
    let r = Arguments::parse(&words(&["prog", "--color=purple"]), Platform::Linux);
    assert_eq!(r.unwrap_err(), ArgError::InvalidColor);
    let r = Arguments::parse(&words(&["prog", "--color="]), Platform::Linux);
    assert_eq!(r.unwrap_err(), ArgError::InvalidColor);
}

#[test]
fn option_without_value_is_refused() {
    let r = Arguments::parse(&words(&["prog", "--color"]), Platform::Linux);
    assert_eq!(r.unwrap_err(), ArgError::InvalidArgument);
    let r = Arguments::parse(&words(&["prog", "-b"]), Platform::Linux);
    assert_eq!(r.unwrap_err(), ArgError::InvalidArgument);
}

#[test]
fn every_art_is_accepted() {
    for p in [Platform::Linux, Platform::Windows, Platform::MacOs] {
        for n in boykisser_names(p) {
            let a = Arguments::parse(&words(&["prog", &format!("--boykisser={}", n)]), p).unwrap();
            assert_eq!(a.boykisser, n);
            assert!(get_boykisser(n.clone(), "x".to_string(), p).is_some());
        }
    }
}

#[test]
fn unknown_art_is_refused() {
    let r = Arguments::parse(&words(&["prog", "-b=nobody"]), Platform::Linux);
    assert_eq!(r.unwrap_err(), ArgError::InvalidBoykisser);
    assert!(get_boykisser("nobody".to_string(), "x".to_string(), Platform::Linux).is_none());
    assert!(get_boykisser("".to_string(), "x".to_string(), Platform::Linux).is_none());
    assert!(!is_boykisser_name(&"Cute".to_string(), Platform::Linux));
}

#[test]
fn first_refused_word_decides() {
    let r = Arguments::parse(&words(&["prog", "-b=nobody", "--color=purple"]), Platform::Linux);
    assert_eq!(r.unwrap_err(), ArgError::InvalidBoykisser);
}

#[test]
fn value_stops_at_second_equals() {
    assert_eq!(Arguments::get_args("--color=red=blue").unwrap(), "red");
    assert_eq!(Arguments::get_args("x").unwrap_err(), ArgError::InvalidArgument);
}

#[test]
fn help_comes_before_list() {
    let a = Arguments::parse(&words(&["prog", "--list", "-h"]), Platform::Linux).unwrap();
    assert_eq!(a.request(), Request::Help);
    let b = Arguments::parse(&words(&["prog", "-l"]), Platform::Linux).unwrap();
    assert_eq!(b.request(), Request::List);
}

#[test]
fn list_names_every_art() {
    assert_eq!(list_lines(Platform::Windows).len(), 18);
    let l = list_lines(Platform::Linux);
    assert_eq!(l.len(), 19);
    assert_eq!(l[0], "Available boykissers:");
    assert_eq!(l[1], "    withhighthighs");
    assert_eq!(l[18], "    youlikeboysfullbody");
    assert!(l.iter().skip(1).all(|s| s.starts_with("    ")));
}

#[test]
fn art_line_count() {
    let b = get_boykisser("cute".to_string(), "a\nb\nc".to_string(), Platform::Linux).unwrap();
    assert_eq!(b.lines, 3);
    assert_eq!(b.text, "a\nb\nc");
    let e = get_boykisser("sad".to_string(), "a\n".to_string(), Platform::MacOs).unwrap();
    assert_eq!(e.lines, 2);
}

#[test]
fn art_line_is_unescaped() {
    let text = "a\r\nb\"c\nd\te";
    assert_eq!(print_boykisserline(0, text), "a");
    assert_eq!(print_boykisserline(1, text), "b\\c");
    assert_eq!(print_boykisserline(2, text), "d\\te");
}

#[test]
fn error_messages() {
    assert_eq!(ArgError::InvalidColor.message(), "Invalid color provided.");
    assert_eq!(ArgError::InvalidBoykisser.message(), "Invalid boykisser provided.");
    assert_eq!(ArgError::InvalidArgument.message(), "Invalid argument provided.");
}

#[test]
fn linux_only_art_elsewhere_is_refused() {
    assert!(get_boykisser("ahhhaah".to_string(), "x".to_string(), Platform::Linux).is_some());
    assert!(get_boykisser("ahhhaah".to_string(), "x".to_string(), Platform::Windows).is_none());
    let r = Arguments::parse(&words(&["prog", "--boykisser=ahhhaah"]), Platform::MacOs);
    assert_eq!(r.unwrap_err(), ArgError::InvalidBoykisser);
}

#[test]
fn options_are_matched_at_the_start() {
    let a = Arguments::parse(&words(&["/opt/x-bin/boykisserfetch", "-c=red"]), Platform::Linux).unwrap();
    assert_eq!(a.color, "red");
    let b = Arguments::parse(&words(&["/opt/x-cache/boykisserfetch"]), Platform::Linux).unwrap();
    assert_eq!(b.color, "white");
    assert_eq!(b.boykisser, "howyoulook");
}

#[test]
fn display_run_pairs_lines_in_order() {
    let text: Vec<String> = (0..20).map(|i| format!("l{}", i)).collect();
    let art = get_boykisser("cute".to_string(), text.join("\n"), Platform::Linux).unwrap();
    assert_eq!(art.lines, 20);
    let rows = display_lines(&art, 14);
    assert_eq!(rows.len(), 20);
    // twenty lines: offset 10 - 6 = 4, fourteen details fit in lines 4..18
    for (i, (line, d)) in rows.iter().enumerate() {
        assert_eq!(line, &format!("l{}", i));
        if (4..18).contains(&i) {
            assert_eq!(*d, Some(i - 4));
        } else {
            assert_eq!(*d, None);
        }
    }
    assert_eq!(rows.iter().filter(|r| r.1.is_some()).count(), 14);
}

#[test]
fn escaped_text_is_cleaned() {
    let escaped: Vec<char> = "\"a\\rb\\\"c\"".chars().collect();
    assert_eq!(shown_text(&escaped), "ab\\c");
}

#[test]
fn list_anywhere_among_words() {
    let a = Arguments::parse(&words(&["prog", "-l", "--color=red", "-b=cute"]), Platform::Linux).unwrap();
    assert!(a.list);
    assert_eq!(a.request(), Request::List);
    let b = Arguments::parse(&words(&["prog", "--color=red", "--list=x"]), Platform::Linux).unwrap();
    assert!(!b.list);
}
