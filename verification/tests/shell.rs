use fstool::filetype::FileType;
use fstool::repl::command::Command;
use fstool::repl::ls::{get_ansi_color, mk_string};
use fstool::repl::random::{random_text, Xorshift64};
use fstool::repl::state::State;
use fstool::repl::user::{is_yes, prompt_text};
use fstool::source::{classify_line, SourceLine};
use fstool::terminal::{bright, ANSI_NORMAL};

fn state() -> State<()> {
    State::new("img".to_string(), true, false, 0, 0, 0o022, ())
}

#[test]
fn umask_applies() {
    let s = state();
    assert_eq!(s.file_umask(), 0o644);
    assert_eq!(s.dir_umask(), 0o755);
    assert_eq!(s.apply_umask_to(0o777), 0o755);
}

#[test]
fn state_flags() {
    let mut s = state();
    assert!(s.is_running());
    s.changed();
    assert!(s.changes);
    s.reset_changed();
    assert!(!s.changes);
    s.stop();
    assert!(!s.is_running());
}

#[test]
fn aliases_set_get_remove() {
    let mut s = state();
    let ll = "ll".to_string();
    s.set_alias(ll.clone(), "ls -l".to_string());
    s.set_alias("la".to_string(), "ls -a".to_string());
    assert_eq!(s.get_alias(&ll), Some("ls -l".to_string()));
    s.set_alias(ll.clone(), "ls -l -a".to_string());
    assert_eq!(s.get_alias(&ll), Some("ls -l -a".to_string()));
    assert_eq!(s.aliases.len(), 2);
    assert!(s.remove_alias(&ll));
    assert!(!s.remove_alias(&ll));
    assert_eq!(s.get_alias(&ll), None);
    assert_eq!(s.get_alias(&"la".to_string()), Some("ls -a".to_string()));
}

#[test]
fn colors_of_names() {
    assert_eq!(get_ansi_color(FileType::Directory), "\x1b[94m");
    assert_eq!(get_ansi_color(FileType::Regular), "\x1b[0m");
    assert_eq!(get_ansi_color(FileType::Fifo), "\x1b[33m");
    assert_eq!(mk_string("dir", FileType::Directory, true), format!("{}dir{}", bright::BLUE, ANSI_NORMAL));
    assert_eq!(mk_string("dir", FileType::Directory, false), "dir");
}

#[test]
fn yes_answers() {
    assert!(is_yes("y\n"));
    assert!(is_yes("  YES  "));
    assert!(is_yes("Yes"));
    assert!(!is_yes("no"));
    assert!(!is_yes(""));
    assert!(!is_yes("yess"));
    assert!(is_yes("\u{3000}y"));
}

#[test]
fn prompt_question() {
    assert_eq!(prompt_text("overwrite", "/a/b"), "overwrite '/a/b'? [y/N] ");
}

#[test]
fn source_lines() {
    assert_eq!(classify_line("   "), SourceLine::Skip);
    assert_eq!(classify_line("# a comment"), SourceLine::Skip);
    assert_eq!(classify_line("// another"), SourceLine::Skip);
    assert_eq!(classify_line("break"), SourceLine::Break);
    assert_eq!(classify_line("  break \n"), SourceLine::Break);
    assert_eq!(classify_line("  alias ll ls -l\n"), SourceLine::Run("alias ll ls -l".to_string()));
    assert_eq!(classify_line("breaks"), SourceLine::Run("breaks".to_string()));
}

#[test]
fn xorshift_sequence() {
    let mut r = Xorshift64::from_time(0, 0);
    assert_eq!(r.state, 0xdead_beef_cafe_f00d);
    assert_eq!(r.next_u64(), 0x27dc_4e92_298c_aead);
    assert_eq!(r.next_u64(), 0x803b_e1f7_8241_bcb0);
    assert_eq!(Xorshift64::from_time(7, 5).state, 0x5384_5412_7b09_6496);
    assert_ne!(Xorshift64::from_system_time().state, 0);
}

#[test]
fn xorshift_fill_and_text() {
    let mut r = Xorshift64::from_time(0, 0);
    let mut buf = [0u8; 10];
    r.fill(&mut buf);
    assert_eq!(buf, [173, 174, 140, 41, 146, 78, 220, 39, 176, 188]);
    let mut r = Xorshift64::from_time(0, 0);
    assert_eq!(random_text(&mut r, 10), b"mnLIRn<Gp|".to_vec());
    assert_eq!(r.state, 0x803b_e1f7_8241_bcb0);
}

#[test]
fn command_fields() {
    let c = Command::new("exit", "Exit the shell.", "", 7u8);
    assert_eq!(c.name, "exit");
    assert_eq!(c.handler, 7);
}
