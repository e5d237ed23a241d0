use crypt::config::Config;
use crypt::names::{
    container_name, judge_filename, plan_entry, sanitize_filename, sanitize_path_component, NameVerdict,
};
use crypt::pack::{
    file_header, input_step, megabytes, packs_directory, total_size, Found, InputStep, WalkStep, WalkTally,
};
use crypt::progress::{on_tick, render_bar, Tick};
use crypt::prompt::{read_choice, read_output_dir, Choice, KeyAction, PasswordEditor, PathPrompt, PathStep};
use crypt::suffix::{date_hash, date_hash_at, hash_suffix};
use crypt::text::{is_white_space_char, join, same_text, split, trim};
use std::hash::{Hash, Hasher};

#[test]
fn text_is_trimmed_like_a_str() {
    for s in ["", " ", "a", " a ", "\t\u{a0}a b\u{3000}\r\n", "\u{2003}", "\u{200b}a", "a\u{85}"] {
        assert_eq!(trim(s), s.trim());
    }
    for u in 0..0x3100u32 {
        let c = char::from_u32(u).unwrap();
        assert_eq!(is_white_space_char(c), c.is_whitespace());
    }
}

#[test]
fn text_is_split_and_joined_like_a_str() {
    for s in ["", "/", "a", "a/b", "/a//b/", "\u{e9}/\u{1f600}"] {
        let parts = split(s, '/');
        let expected: Vec<String> = s.split('/').map(|p| p.to_string()).collect();
        assert_eq!(parts, expected);
        assert_eq!(join(&parts, '/'), s);
    }
    assert!(same_text("ab", "ab"));
    assert!(!same_text("ab", "a"));
    assert!(!same_text("ab", "ac"));
}

#[test]
fn components_lose_what_file_systems_do_not_take() {
    assert_eq!(sanitize_path_component("a<b>c:d\"e|f?g*h"), "a_b_c_d_e_f_g_h");
    assert_eq!(sanitize_path_component("x\0y\u{1f}z\u{1}"), "x_y_z_");
    assert_eq!(sanitize_path_component("a\ttab"), "a_tab");
    assert_eq!(sanitize_path_component("back\\slash"), "back_slash");
    assert_eq!(sanitize_path_component("a\\b\tc"), "a_b_c");
    assert_eq!(sanitize_path_component("plain name.txt"), "plain name.txt");
    assert_eq!(sanitize_path_component(""), "");
    assert_eq!(sanitize_path_component("\u{e9}\u{1f600}"), "\u{e9}\u{1f600}");
}

#[test]
fn entries_are_planned() {
    let plan = plan_entry("docs/a:b/c?.txt");
    assert_eq!(plan.path, "docs/a_b/c_.txt");
    assert!(!plan.skip);
    for path in ["../x", "a/../b", "./x", "a/.", "..", "."] {
        assert!(plan_entry(path).skip);
        assert_eq!(plan_entry(path).path, path);
    }
    assert!(!plan_entry("a/...").skip);
    assert!(!plan_entry("a/..b").skip);
    assert_eq!(plan_entry("a\\b").path, "a_b");
    assert_eq!(plan_entry("..\\evil").path, ".._evil");
    assert!(!plan_entry("..\\evil").skip);
    assert_eq!(plan_entry("\\a").path, "_a");
    assert_eq!(plan_entry("/a:b").path, "/a_b");
}

#[test]
fn file_names_are_made_safe() {
    for (name, verdict) in [
        ("", NameVerdict::Empty),
        ("..", NameVerdict::Unsafe),
        ("a..b", NameVerdict::Unsafe),
        ("a/b", NameVerdict::Unsafe),
        ("a\\b", NameVerdict::Unsafe),
        ("a\0b", NameVerdict::Unsafe),
        (".", NameVerdict::Special),
    ] {
        assert_eq!(judge_filename(name), verdict);
        assert_eq!(sanitize_filename(name), "decrypted_output");
    }
    for name in ["report.pdf", ".hidden", "a.b.c", "with space", "a:b"] {
        assert_eq!(judge_filename(name), NameVerdict::Fine);
        assert_eq!(sanitize_filename(name), name);
    }
}

#[test]
fn containers_are_named() {
    assert_eq!(container_name("photos", "0011aaff"), "photos-0011aaff.crypt");
}

#[test]
fn suffixes_are_eight_digits() {
    assert_eq!(hash_suffix(0), "00000000");
    assert_eq!(hash_suffix(0x1a), "0000001a");
    assert_eq!(hash_suffix(0x89ab_cdef), "89abcdef");
    assert_eq!(hash_suffix(0x1_89ab_cdef), "189abcde");
    assert_eq!(hash_suffix(0xfedc_ba98_7654_3210), "fedcba98");
}

#[test]
fn suffixes_come_from_the_hash_of_the_time() {
    for nanos in [0u128, 1, 1_700_000_000_123_456_789, u128::MAX] {
        let mut hasher = std::collections::hash_map::DefaultHasher::new();
        nanos.hash(&mut hasher);
        let digits = format!("{:08x}", hasher.finish());
        assert_eq!(date_hash_at(Some(nanos)), digits[..8]);
    }
    assert_eq!(date_hash_at(None), date_hash_at(Some(0)));
}

#[test]
fn the_suffix_of_now_has_the_shape() {
    let suffix = date_hash();
    assert_eq!(suffix.len(), 8);
    assert!(suffix.chars().all(|c| c.is_ascii_digit() || ('a'..='f').contains(&c)));
    let mut others = 0;
    for _ in 0..20 {
        if date_hash() != suffix {
            others += 1;
        }
    }
    assert!(others > 0);
}

#[test]
fn a_password_is_edited() {
    let mut e = PasswordEditor::new();
    assert_eq!(e.on_key(0x08), KeyAction::Ignore);
    assert_eq!(e.on_key(b'a'), KeyAction::Show);
    assert_eq!(e.on_key(b'~'), KeyAction::Show);
    assert_eq!(e.on_key(b' '), KeyAction::Show);
    assert_eq!(e.on_key(0x1b), KeyAction::Ignore);
    assert_eq!(e.on_key(0xc3), KeyAction::Ignore);
    assert_eq!(e.on_key(0x7f), KeyAction::Erase(1));
    assert_eq!(e.on_key(0x15), KeyAction::Erase(2));
    assert_eq!(e.on_key(0x15), KeyAction::Erase(0));
    assert_eq!(e.on_key(b'p'), KeyAction::Show);
    assert_eq!(e.on_key(b'w'), KeyAction::Show);
    assert_eq!(e.on_key(0x03), KeyAction::Interrupt);
    assert_eq!(e.on_key(0x04), KeyAction::Accept);
    assert_eq!(e.on_key(b'\r'), KeyAction::Accept);
    assert_eq!(e.on_key(b'\n'), KeyAction::Accept);
    assert_eq!(e.finish(), "pw");
}

#[test]
fn stars_match_the_password() {
    let mut e = PasswordEditor::new();
    let mut stars = 0usize;
    for key in [b'a', b'b', 0x7f, b'c', 0x15, 0x7f, b'd', 0x00, b'e', b'f', 0x08] {
        match e.on_key(key) {
            KeyAction::Show => stars += 1,
            KeyAction::Erase(n) => stars -= n,
            _ => {}
        }
    }
    assert_eq!(e.finish(), "de");
    assert_eq!(stars, 2);
}

#[test]
fn paths_are_collected() {
    let mut p = PathPrompt::new();
    assert_eq!(p.on_line("\n"), PathStep::More);
    assert_eq!(p.on_line("  /tmp/a b \r\n"), PathStep::More);
    assert_eq!(p.on_line("c\n"), PathStep::More);
    assert_eq!(p.on_line("   \n"), PathStep::Done);
    assert_eq!(p.paths(), vec!["/tmp/a b".to_string(), "c".to_string()]);
    assert!(PathPrompt::new().paths().is_empty());
}

#[test]
fn answers_are_read() {
    assert_eq!(read_choice(" e\n"), Choice::Encrypt);
    assert_eq!(read_choice("d"), Choice::Decrypt);
    assert_eq!(read_choice(" \n"), Choice::Blank);
    assert_eq!(read_choice("E\n"), Choice::Invalid);
    assert_eq!(read_choice("ed"), Choice::Invalid);
    assert_eq!(read_output_dir("\n"), None);
    assert_eq!(read_output_dir(" /out \n"), Some("/out".to_string()));
}

#[test]
fn the_bar_is_drawn() {
    assert_eq!(render_bar(0, false), format!("\r|>{}|", ".".repeat(49)));
    assert_eq!(render_bar(20, false), format!("\r|{}>{}|", "=".repeat(20), ".".repeat(29)));
    assert_eq!(render_bar(49, false), format!("\r|{}>|", "=".repeat(49)));
    assert_eq!(render_bar(50, false), format!("\r|{}|", "=".repeat(50)));
    assert_eq!(render_bar(99, false), format!("\r|{}|", "=".repeat(50)));
    assert_eq!(render_bar(3, true), format!("\r|{}|", "=".repeat(50)));
    assert_eq!(on_tick(true, 0), Tick::Finish);
    assert_eq!(on_tick(false, 1), Tick::Draw);
    assert_eq!(on_tick(false, 0), Tick::Wait);
}

#[test]
fn one_worker_runs_by_default() {
    assert_eq!(Config::default().num_workers, 1);
    assert_eq!(Config::default().workers(), 1);
    assert_eq!(Config { num_workers: 0 }.workers(), 1);
    assert_eq!(Config { num_workers: 6 }.workers(), 6);
    assert_eq!(Config::from_parsed(Some(4)), Config { num_workers: 4 });
    assert_eq!(Config::from_parsed(None), Config::default());
}

#[test]
fn packed_files_have_plain_headers() {
    for size in [0u64, 1234, 8_589_934_592] {
        let bytes = file_header(size);
        assert_eq!(bytes.len(), 512);
        let mut header = tar::Header::new_old();
        header.as_mut_bytes().copy_from_slice(&bytes);
        assert_eq!(header.size().unwrap(), size);
        assert_eq!(header.mode().unwrap(), 0o644);
        assert_eq!(header.mtime().unwrap(), 0);
        assert_eq!(header.entry_type(), tar::EntryType::Regular);
        assert!(header.as_gnu().is_some());
    }
}

#[test]
fn what_is_found_decides() {
    let mut t = WalkTally::new();
    assert_eq!(t.on_entry(Found::Directory), WalkStep::Pass);
    assert_eq!(t.on_entry(Found::File), WalkStep::Pack);
    assert_eq!(t.skipped(), 0);
    assert_eq!(t.on_entry(Found::Other), WalkStep::Skip);
    assert_eq!(t.on_entry(Found::Unreadable), WalkStep::Skip);
    t.on_open_failed();
    assert_eq!(t.skipped(), 3);
    assert_eq!(input_step(Found::Directory), InputStep::Walk);
    assert_eq!(input_step(Found::File), InputStep::Pack);
    assert_eq!(input_step(Found::Other), InputStep::Warn);
    assert_eq!(input_step(Found::Unreadable), InputStep::Warn);
    assert!(packs_directory(1, true));
    assert!(!packs_directory(1, false));
    assert!(packs_directory(2, false));
}

#[test]
fn sizes_are_summed() {
    assert_eq!(total_size(&vec![]), Some(0));
    assert_eq!(total_size(&vec![1, 2, 3]), Some(6));
    assert_eq!(total_size(&vec![u64::MAX, 0]), Some(u64::MAX));
    assert_eq!(total_size(&vec![u64::MAX, 1]), None);
    assert_eq!(megabytes(1048575), 0);
    assert_eq!(megabytes(3 * 1048576), 3);
}
