use stepwise::text::contains_marker;
use stepwise::text::declines;
use stepwise::text::filter_packages;
use stepwise::text::repo_name;
use stepwise::text::trim_line;

fn bytes(s: &str) -> Vec<u8> {
    s.as_bytes().to_vec()
}

#[test]
fn trim_removes_blanks_on_both_ends() {
    assert_eq!(trim_line(&bytes("  git \t")), bytes("git"));
    assert_eq!(trim_line(&bytes("vim")), bytes("vim"));
    assert_eq!(trim_line(&bytes("   ")), bytes(""));
    assert_eq!(trim_line(&bytes("")), bytes(""));
    assert_eq!(trim_line(&bytes("a b\r")), bytes("a b"));
}

#[test]
fn marker_found_in_configuration_block() {
    let conf = bytes("[core]\nInclude = /etc/pacman.d/mirrorlist\n\n[chaotic-aur]\nInclude = /etc/pacman.d/chaotic-mirrorlist\n");
    assert!(contains_marker(&conf, &bytes("[chaotic-aur]")));
    assert!(!contains_marker(&conf, &bytes("[multilib]")));
}

#[test]
fn marker_edge_cases() {
    assert!(contains_marker(&bytes("abc"), &bytes("")));
    assert!(contains_marker(&bytes(""), &bytes("")));
    assert!(!contains_marker(&bytes(""), &bytes("a")));
    assert!(contains_marker(&bytes("abc"), &bytes("abc")));
    assert!(!contains_marker(&bytes("abc"), &bytes("abcd")));
    assert!(contains_marker(&bytes("aab"), &bytes("ab")));
}

#[test]
fn package_list_is_trimmed_and_filtered() {
    let lines = vec![
        bytes("  git "),
        bytes(""),
        bytes("   "),
        bytes("# a comment"),
        bytes("paru-debug"),
        bytes("vim"),
        bytes("\tstow"),
    ];
    let excluded = vec![bytes("paru-debug")];
    let kept = filter_packages(&lines, &excluded);
    assert_eq!(kept, vec![bytes("git"), bytes("vim"), bytes("stow")]);
}

#[test]
fn exclusion_applies_to_the_trimmed_name() {
    let lines = vec![bytes(" paru-debug  "), bytes("paru")];
    let excluded = vec![bytes("paru-debug")];
    let kept = filter_packages(&lines, &excluded);
    assert_eq!(kept, vec![bytes("paru")]);
}

#[test]
fn repo_name_is_the_part_after_the_last_slash() {
    assert_eq!(
        repo_name(&bytes("https://github.com/rann01/IRIX-tiles")),
        bytes("IRIX-tiles")
    );
    assert_eq!(repo_name(&bytes("plain-name")), bytes("plain-name"));
    assert_eq!(repo_name(&bytes("trailing/slash/")), bytes(""));
    assert_eq!(repo_name(&bytes("")), bytes(""));
}

#[test]
fn negative_answers_decline() {
    assert!(declines(&bytes("n")));
    assert!(declines(&bytes("no")));
    assert!(declines(&bytes("  No \n")));
    assert!(declines(&bytes("N")));
    assert!(declines(&bytes("NO")));
}

#[test]
fn other_answers_consent() {
    assert!(!declines(&bytes("")));
    assert!(!declines(&bytes("y")));
    assert!(!declines(&bytes("yes")));
    assert!(!declines(&bytes("none")));
    assert!(!declines(&bytes("n o")));
}
