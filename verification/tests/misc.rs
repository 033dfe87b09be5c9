use std::cell::Cell;

use nym::actuator::{Actuator, HardLink, Label, Move, SoftLink};
use nym::environment::{Environment, Policy};
use nym::memoized::Memoized;
use nym::option::{split_command, split_words, OptionError, Toggle};
use nym::terminal::{text_width, Layout};

#[test]
fn toggles_parse_their_names() {
    assert_eq!(Toggle::parse("always"), Ok(Toggle::Always));
    assert_eq!(Toggle::parse("auto"), Ok(Toggle::Automatic));
    assert_eq!(Toggle::parse("automatic"), Ok(Toggle::Automatic));
    assert_eq!(Toggle::parse("never"), Ok(Toggle::Never));
    assert_eq!(Toggle::parse("Always"), Err(OptionError::Parse));
    assert_eq!(Toggle::parse(""), Err(OptionError::Parse));
    assert_eq!(Toggle::default(), Toggle::Automatic);
    assert_eq!("never".parse::<Toggle>(), Ok(Toggle::Never));
}

#[test]
fn command_lines_split_at_whitespace() {
    assert_eq!(split_words("  less -R\t--no-init \n"), vec!["less", "-R", "--no-init"]);
    let (program, arguments) = split_command("less -R --quit-if-one-screen").unwrap();
    assert_eq!(program, "less");
    assert_eq!(arguments, vec!["-R", "--quit-if-one-screen"]);
    assert_eq!(split_command("   "), Err(OptionError::Parse));
}

#[test]
fn text_width_leaves_the_margin_but_keeps_a_minimum() {
    let layout = Layout::new(80, 24);
    assert_eq!(layout.dimensions(), (80, 24));
    assert_eq!(text_width(Some(layout), 10), 70);
    assert_eq!(text_width(Some(Layout::new(20, 5)), 10), 16);
    assert_eq!(text_width(Some(Layout::new(5, 5)), 10), 16);
    assert_eq!(text_width(None, 10), usize::MAX - 1);
}

#[test]
fn memoized_runs_until_it_succeeds_then_keeps_its_output() {
    let calls = Cell::new(0);
    let mut m = Memoized::from(|| {
        calls.set(calls.get() + 1);
        if calls.get() < 2 {
            Err("not yet")
        } else {
            Ok(calls.get() * 10)
        }
    });
    assert!(m.peek().is_none());
    assert_eq!(m.get(), Err("not yet"));
    assert_eq!(m.get(), Ok(&20));
    assert_eq!(m.get(), Ok(&20));
    assert_eq!(calls.get(), 2);
    assert_eq!(m.peek(), Some(&20));
    assert_eq!(m.drain(), Some(20));
    assert!(m.peek().is_none());
    assert_eq!(m.take(), Ok(30));
}

#[test]
fn environments_hold_their_policy() {
    let policy = Policy { parents: true, overwrite: false };
    let environment = Environment::new(policy);
    assert_eq!(*environment.policy(), policy);
    let actuator: Actuator = environment.actuator();
    assert_eq!(actuator.policy(), policy);
    assert!(actuator.creates_parent(false));
    assert!(!actuator.creates_parent(true));
    let strict = Environment::new(Policy { parents: false, overwrite: false });
    assert!(!strict.actuator().creates_parent(false));
}

#[test]
fn operations_have_labels() {
    assert_eq!(<nym::actuator::Copy as Label>::LABEL, "copy");
    assert_eq!(<HardLink as Label>::LABEL, "hard link");
    assert_eq!(<Move as Label>::LABEL, "move");
    assert_eq!(<SoftLink as Label>::LABEL, "soft link");
}
