use shimeji_gui::{decimal, is_white_space, join, parse_active, parse_active_line, parse_prototypes};

fn strings(v: &[&str]) -> Vec<String> {
    v.iter().map(|s| s.to_string()).collect()
}

#[test]
fn prototypes_are_read_one_per_line() {
    let names = parse_prototypes("Neuroling\n  Eviling  \n\n\r\nShiro\r\n");
    assert_eq!(names, strings(&["Neuroling", "Eviling", "Shiro"]));
}

#[test]
fn prototypes_of_empty_output() {
    assert!(parse_prototypes("").is_empty());
    assert!(parse_prototypes("\n\n   \n\t\r\n").is_empty());
}

#[test]
fn prototypes_keep_inner_spaces_and_drop_unicode_white_space() {
    let names = parse_prototypes("\u{3000}Big Name\u{a0}\n\u{2003}x\u{85}");
    assert_eq!(names, strings(&["Big Name", "x"]));
}

#[test]
fn prototypes_last_line_without_line_feed() {
    assert_eq!(parse_prototypes("a\nb"), strings(&["a", "b"]));
}

#[test]
fn active_mascots_are_read_from_the_documented_format() {
    let mascots = parse_active("#1 Neuroling\n#2 Eviling\n");
    assert_eq!(mascots.len(), 2);
    assert_eq!(mascots[0].id, 1);
    assert_eq!(mascots[0].name, "Neuroling");
    assert_eq!(mascots[1].id, 2);
    assert_eq!(mascots[1].name, "Eviling");
}

#[test]
fn active_lines_that_do_not_read_are_passed_over() {
    let text = "garbage\n#x y\n#3\n  #4   Long Name  \n##5 five\n+6 six\n#+7 seven\n#-8 eight\n\
                #4294967296 big\n#4294967295 max\n#9\tnine\n007 lead\n# 10 empty id\n";
    let mascots = parse_active(text);
    let got: Vec<(u32, String)> = mascots.iter().map(|m| (m.id, m.name.clone())).collect();
    assert_eq!(
        got,
        vec![
            (4, "Long Name".to_string()),
            (5, "five".to_string()),
            (6, "six".to_string()),
            (7, "seven".to_string()),
            (4294967295, "max".to_string()),
            (7, "lead".to_string()),
        ]
    );
}

#[test]
fn active_line_examples() {
    let m = parse_active_line("#12 Neuro ling").unwrap();
    assert_eq!(m.id, 12);
    assert_eq!(m.name, "Neuro ling");
    assert!(parse_active_line("").is_none());
    assert!(parse_active_line("#12").is_none());
    assert!(parse_active_line("#12\u{a0}x").is_none());
    assert!(parse_active_line("# x").is_none());
    assert!(parse_active_line("#+ x").is_none());
    let crlf = parse_active_line("#3 Shiro\r").unwrap();
    assert_eq!((crlf.id, crlf.name.as_str()), (3, "Shiro"));
}

#[test]
fn decimal_examples() {
    assert_eq!(decimal(0), "0");
    assert_eq!(decimal(7), "7");
    assert_eq!(decimal(10), "10");
    assert_eq!(decimal(4294967295), "4294967295");
    assert_eq!(decimal(u64::MAX), u64::MAX.to_string());
}

#[test]
fn white_space_is_what_std_calls_white_space() {
    for v in 0u32..0x3100 {
        if let Some(c) = char::from_u32(v) {
            assert_eq!(is_white_space(c), c.is_whitespace(), "{:#x}", v);
        }
    }
}

#[test]
fn join_examples() {
    assert_eq!(join(&strings(&[]), " "), "");
    assert_eq!(join(&strings(&["a"]), " "), "a");
    assert_eq!(join(&strings(&["a", "b", "c"]), ", "), "a, b, c");
}

#[test]
fn prototype_listing_reads_back() {
    let names = strings(&["Neuroling", "Evil ing", "Shiro"]);
    assert_eq!(parse_prototypes(&names.join("\n")), names);
}

#[test]
fn prototype_reading_is_stable() {
    let text = "  a \n\n b b\r\n\u{3000}c";
    let once = parse_prototypes(text);
    let twice = parse_prototypes(&once.join("\n"));
    assert_eq!(once, twice);
}

#[test]
fn active_listing_reads_back() {
    let mascots = vec![(0u32, "Zero"), (42, "Neuro ling"), (u32::MAX, "Max")];
    let text: Vec<String> = mascots.iter().map(|(id, name)| format!("#{} {}", id, name)).collect();
    let read = parse_active(&text.join("\n"));
    let got: Vec<(u32, &str)> = read.iter().map(|m| (m.id, m.name.as_str())).collect();
    assert_eq!(got, mascots);
}

#[test]
fn active_reading_is_stable() {
    let text = "#007 a\n  ##3   b c  \nnoise\n+9 d";
    let once = parse_active(text);
    let again: Vec<String> = once.iter().map(|m| format!("#{} {}", m.id, m.name)).collect();
    let twice = parse_active(&again.join("\n"));
    let a: Vec<(u32, String)> = once.iter().map(|m| (m.id, m.name.clone())).collect();
    let b: Vec<(u32, String)> = twice.iter().map(|m| (m.id, m.name.clone())).collect();
    assert_eq!(a, b);
    assert_eq!(a.len(), 3);
}

#[test]
fn decimal_reads_back_as_an_id() {
    for id in [0u32, 1, 9, 10, 99, 100, 65535, 4294967295] {
        let m = parse_active_line(&format!("#{} x", decimal(id as u64))).unwrap();
        assert_eq!(m.id, id);
    }
}

#[test]
fn prototype_listing_with_final_feed_reads_back() {
    let names = strings(&["Neuroling", "Evil ing", "Shiro"]);
    let text: String = names.iter().map(|n| format!("{}\n", n)).collect();
    assert_eq!(parse_prototypes(&text), names);
    assert!(parse_prototypes("\n").is_empty());
}

#[test]
fn active_listing_with_final_feed_reads_back() {
    let mascots = vec![(1u32, "Neuroling"), (2, "Eviling"), (300, "Big Shiro")];
    let text: String = mascots.iter().map(|(id, name)| format!("#{} {}\n", id, name)).collect();
    let read = parse_active(&text);
    let got: Vec<(u32, &str)> = read.iter().map(|m| (m.id, m.name.as_str())).collect();
    assert_eq!(got, mascots);
    assert!(parse_active("\n").is_empty());
}
