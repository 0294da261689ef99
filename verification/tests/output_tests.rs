use bijjou::config::{Color, Pager};
use bijjou::output::{color_enabled, pager_is_set, pager_words, wants_pager, write_output};

#[test]
fn colour_follows_the_mode_and_the_terminal() {
    assert!(color_enabled(Color::Always, false));
    assert!(!color_enabled(Color::Never, true));
    assert!(color_enabled(Color::Auto, true));
    assert!(!color_enabled(Color::Auto, false));
}

#[test]
fn output_keeps_or_strips_sgr() {
    let buf = b"\x1b[31mred\x1b[39m plain";
    let mut a = Vec::new();
    write_output(buf, true, &mut a);
    assert_eq!(a, buf.to_vec());
    let mut b = Vec::new();
    write_output(buf, false, &mut b);
    assert_eq!(b, b"red plain");
}

#[test]
fn a_blank_pager_is_no_pager() {
    assert!(!pager_is_set(None));
    assert!(!pager_is_set(Some("  \t")));
    assert!(pager_is_set(Some("less -R")));
}

#[test]
fn paging_follows_the_mode() {
    assert!(!wants_pager(Pager::Never, true, Some("less")));
    assert!(wants_pager(Pager::Always, false, Some("less")));
    assert!(!wants_pager(Pager::Always, true, None));
    assert!(wants_pager(Pager::Auto, true, Some("less")));
    assert!(!wants_pager(Pager::Auto, false, Some("less")));
}

#[test]
fn pager_command_splits_on_whitespace() {
    use_words("less -R", &["less", "-R"]);
    use_words("  less\t -R  -F ", &["less", "-R", "-F"]);
    use_words("", &[]);
    use_words("more\u{3000}-d", &["more", "-d"]);
}

fn use_words(cmd: &str, want: &[&str]) {
    let got: Vec<Vec<u8>> = pager_words(cmd);
    let want: Vec<Vec<u8>> = want.iter().map(|w| w.as_bytes().to_vec()).collect();
    assert_eq!(got, want);
    let std_split: Vec<Vec<u8>> = cmd.split_whitespace().map(|w| w.as_bytes().to_vec()).collect();
    assert_eq!(got, std_split);
}
