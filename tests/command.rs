use rem::command::{Action, Block, Command, Editor, Error, Help, File, Index, Pattern, Selector, Time, Warning};
use rem::select;
use rem::select::Select;

#[test]
fn flags_are_detected() {
    let both = Command::parse(&["-S", "-O", "-F", "-I", "3-"]).unwrap();
    assert!(both.sandbox);
    assert!(both.overwrite);
    let neither = Command::parse(&["-F", "-I", "3-"]).unwrap();
    assert!(!neither.sandbox);
    assert!(!neither.overwrite);
}

#[test]
fn command_is_detected() {
    let help = Command::parse(&["--help", "cmd", "-F", "main"]).unwrap();
    assert_eq!(
        help.action,
        Action::Help(vec![Help("cmd".to_string()), Help("main".to_string())])
    );
    let del = Command::parse(&["-d", "-I", "3:7"]).unwrap();
    assert_eq!(
        del.action,
        Action::Edit(
            Some(Editor::Delete),
            Selector {
                active: true,
                fzf: false,
                idx: vec![Index("3:7".to_string())],
                pat: vec![],
                blk: vec![],
                time: vec![]
            }
        )
    );
    // Undo restores the newest batch.
    let undo = Command::parse(&["--undo"]).unwrap();
    assert_eq!(
        undo.action,
        Action::Edit(
            Some(Editor::Restore),
            Selector {
                active: false,
                fzf: false,
                idx: vec![],
                pat: vec![],
                blk: vec![Block("1".to_string())],
                time: vec![]
            }
        )
    );
    let remove = Command::parse(&["foo.txt", "bar.sh"]).unwrap();
    assert_eq!(
        remove.action,
        Action::Remove(vec![
            File("foo.txt".to_string()),
            File("bar.sh".to_string())
        ])
    );
}

#[test]
fn selectors_capture() {
    let ended = Command::parse(&["-I", "1", "2", "3", "-P", ""]).unwrap();
    assert_eq!(
        ended.action,
        Action::Edit(
            None,
            Selector {
                active: true,
                fzf: false,
                idx: vec![
                    Index("1".to_string()),
                    Index("2".to_string()),
                    Index("3".to_string())
                ],
                pat: vec![Pattern("".to_string())],
                blk: vec![],
                time: vec![],
            }
        )
    );
}

#[test]
fn errors() {
    let non_exclusive1 = Command::parse(&["--help", "--rest", "-P", "foo"]);
    assert!(matches!(non_exclusive1, Err(Error::NonExclusiveCmd(_, _))));
    let non_exclusive2 = Command::parse(&["--help", "--undo"]);
    assert!(matches!(non_exclusive2, Err(Error::NonExclusiveCmd(_, _))));
    let non_exclusive3 = Command::parse(&["--rest", "--del"]);
    assert!(matches!(non_exclusive3, Err(Error::NonExclusiveCmd(_, _))));
    let too_many = Command::parse(&["foo", "bar", "--undo"]);
    assert!(matches!(too_many, Err(Error::TooManyArgs(_, _))));
    let empty_sel = Command::parse(&["-P"]);
    assert!(matches!(empty_sel, Err(Error::EmptySelectorList(_))));
    let unknown = Command::parse(&["--foo"]);
    assert!(matches!(unknown, Err(Error::UnknownArg(_))));
    let useless1 = Command::parse(&["-F", "--undo"]);
    assert!(matches!(useless1, Err(Error::UselessSelector("undo", _))));
    let useless2 = Command::parse(&["foo.txt", "-I", "3"]);
    assert!(matches!(useless2, Err(Error::UselessSelector("remove", _))));
}

#[test]
fn selector_idx() {
    assert_eq!(
        Index("1".to_string()).make().unwrap(),
        select::Index::new(1, 1)
    );
    assert_eq!(
        Index("1:4".to_string()).make().unwrap(),
        select::Index::new(1, 4)
    );
    assert_eq!(
        Index(":15".to_string()).make().unwrap(),
        select::Index::new(1, 15)
    );
    assert!(matches!(
        Index("1:2:3".to_string()).make(),
        Err(Error::ThreePartRange(_))
    ));
    assert!(matches!(Index("a:4".to_string()).make(), Err(Error::InvalidIndex(_))));
}

#[test]
fn selector_time() {
    assert_eq!(
        Time("3D4m:1Y3s30W".to_string()).make().unwrap(),
        select::Time::new(
            4 * 60 + 3 * 24 * 60 * 60,
            3 + 30 * 7 * 24 * 60 * 60 + 1 * 365 * 24 * 60 * 60
        )
    );
    assert_eq!(
        Time("h:".to_string()).make().unwrap(),
        select::Time::new(1 * 60 * 60, u64::MAX)
    );
    assert_eq!(
        Time("13M".to_string()).make().unwrap(),
        select::Time::new(13 * 30 * 24 * 60 * 60, 13 * 30 * 24 * 60 * 60)
    );
}

#[test]
fn duration_examples() {
    assert_eq!(Time::delta_time("3D4m").unwrap(), 3 * 86400 + 4 * 60);
    assert_eq!(Time::delta_time("h").unwrap(), 3600);
    assert_eq!(Time::delta_time(" 2 h 1s").unwrap(), 7201);
    assert_eq!(Time::delta_time("5").unwrap(), 0);
    assert_eq!(Time::delta_time("").unwrap(), 0);
    assert_eq!(Time::delta_time("99999999999999999999Y").unwrap(), u64::MAX);
    assert_eq!(Time("h:".to_string()).make().unwrap(), select::Time::new(3600, u64::MAX));
    assert_eq!(Time(":".to_string()).make().unwrap(), select::Time::new(0, u64::MAX));
}

#[test]
fn duration_rejects_unknown_unit() {
    match Time::delta_time("3x") {
        Err(Error::WrongDuration(text, c)) => {
            assert_eq!(text, "3x");
            assert_eq!(c, 'x');
        }
        other => panic!("unexpected {:?}", other),
    }
    match Time("1s:2q".to_string()).make() {
        Err(Error::WrongDuration(text, c)) => {
            assert_eq!(text, "2q");
            assert_eq!(c, 'q');
        }
        other => panic!("unexpected {:?}", other),
    }
    assert!(matches!(Time("1:2:3".to_string()).make(), Err(Error::ThreePartRange(_))));
}

#[test]
fn index_ranges_read() {
    assert_eq!(Index("2:".to_string()).make().unwrap(), select::Index::new(2, usize::MAX));
    assert_eq!(Index("+3".to_string()).make().unwrap(), select::Index::new(3, 3));
    match Index("1:x".to_string()).make() {
        Err(Error::InvalidIndex(t)) => assert_eq!(t, "x"),
        other => panic!("unexpected {:?}", other),
    }
    assert_eq!(Block("2:3".to_string()).make().unwrap(), select::Block::new(2, 3));
}

#[test]
fn empty_range_warns_without_error() {
    let mut sel = Selector::new();
    sel.add_idx("4:2".to_string());
    sel.add_time("1h:1s".to_string());
    let (built, warnings) = sel.make().unwrap();
    assert_eq!(
        warnings,
        vec![
            Warning::EmptyRange("1h:1s".to_string(), 3600, 1),
            Warning::EmptyRange("4:2".to_string(), 4, 2),
        ]
    );
    let text = "a|/x|1\nb|/y|2\nc|/z|3\n";
    let entries = select::Entries::load(text).unwrap();
    let mut selection = select::Selection::new();
    let ctx = select::Context { now: 10, picked: vec![] };
    built.select(&entries, &ctx, &mut selection);
    assert!(selection.positions().is_empty());
}

#[test]
fn patterns_compile_or_report() {
    assert!(Pattern("a.*b".to_string()).make().is_ok());
    match Pattern("(".to_string()).make() {
        Err(Error::InvalidRegexSyntax(p, _)) => assert_eq!(p, "("),
        other => panic!("unexpected {:?}", other.map(|_| ())),
    }
    let mut sel = Selector::new();
    sel.add_pat("[".to_string());
    assert!(matches!(sel.make(), Err(Error::InvalidRegexSyntax(_, _))));
}

#[test]
fn make_builds_in_order() {
    let mut sel = Selector::new();
    sel.add_idx("1".to_string());
    sel.add_pat("x".to_string());
    sel.add_blk("2".to_string());
    sel.add_time("1s".to_string());
    sel.add_fzf();
    let (built, warnings) = sel.make().unwrap();
    assert!(warnings.is_empty());
    let text = format!("{:?}", built);
    let p = text.find("Pattern").unwrap();
    let t = text.find("Time").unwrap();
    let i = text.find("Index").unwrap();
    let b = text.find("Block").unwrap();
    let f = text.find("Fzf").unwrap();
    assert!(p < t && t < i && i < b && b < f);
}

#[test]
fn summary_and_render() {
    let mut sel = Selector::new();
    assert_eq!(sel.summary(), "<Empty>");
    sel.add_fzf();
    sel.add_idx("1".to_string());
    assert_eq!(sel.summary(), "--fzf --idx ...");
    let r = Error::MissingData("a|b".to_string(), 3, "timestamp").render().unwrap();
    assert_eq!(r.title, "Corrupted (missing) data");
    assert_eq!(r.message, "'a|b' is too short for 'alias|name|timestamp'");
    assert_eq!(r.hint, "fix missing field timestamp at entry number 3");
    let r = Error::ThreePartRange("1:2:3".to_string()).render().unwrap();
    assert_eq!(r.hint, "replace with '1:2'");
    let r = Error::TooManyArgs("undo", vec!["a".to_string(), "b".to_string()]).render().unwrap();
    assert_eq!(r.hint, "remove 'a b'");
    let r = Error::WrongDuration("3x".to_string(), 'x').render().unwrap();
    assert_eq!(r.hint, "remove invalid character 'x'");
    assert!(Error::SandBoxed.render().is_none());
}

#[test]
fn editor_labels() {
    assert_eq!(Editor::Delete.as_str(), "del");
    assert_eq!(Editor::Restore.as_str(), "rest");
    assert_eq!(Editor::Info.as_str(), "info");
    match Command::parse(&["--rest", "--del"]) {
        Err(Error::NonExclusiveCmd(a, b)) => {
            assert_eq!(a, "rest");
            assert_eq!(b, "del");
        }
        other => panic!("unexpected {:?}", other),
    }
}

#[test]
fn double_dash_takes_the_rest() {
    let c = Command::parse(&["--", "-x", "y"]).unwrap();
    assert_eq!(
        c.action,
        Action::Remove(vec![File("-x".to_string()), File("y".to_string())])
    );
    assert!(c.critical);
    let l = Command::parse(&["-i", "-I", "2"]).unwrap();
    assert!(!l.critical);
    assert_eq!(File("a".to_string()).make(), "a");
    assert_eq!(Help("m".to_string()).as_str(), "m");
}

#[test]
fn warning_text() {
    let (title, message) = Warning::EmptyRange("4:2".to_string(), 4, 2).render();
    assert_eq!(title, "Empty range cannot match");
    assert_eq!(
        message,
        "Range pattern '4:2' interpreted as 4..=2 is useless since it will never match"
    );
}

#[test]
fn pattern_keeps_unmatched_out() {
    let entries = select::Entries::load("a|/srv/x|1\nb|/home/y|2\n").unwrap();
    let p = Pattern("srv".to_string()).make().unwrap();
    let mut selection = select::Selection::new();
    let ctx = select::Context { now: 0, picked: vec![] };
    p.select(&entries, &ctx, &mut selection);
    assert_eq!(selection.positions(), &vec![2]);
}
