use rem::command::Error;
use rem::exec::{Removal, RemovalAction, RemovalEvent, RemovalState};
use rem::log::{batch_text, encode};
use rem::select::{Block, Context, Criterion, Entries, Entry, Fzf, Index, Select, Selection, Selector, Time};

fn entry(alias: &str, name: &str, timestamp: u64) -> Entry {
    Entry { name: name.to_string(), alias: alias.to_string(), timestamp }
}

fn resolve(entries: &Entries, criteria: Vec<Criterion>, ctx: &Context) -> Vec<usize> {
    let mut sel = Selector::new();
    for c in criteria {
        sel.push(c);
    }
    let mut selection = Selection::new();
    sel.select(entries, ctx, &mut selection);
    selection.positions().clone()
}

fn no_context() -> Context {
    Context { now: 0, picked: vec![] }
}

#[test]
fn newest_entry_is_position_one() {
    let text = "\na|/a|1\nb|/b|2\n\nc|/c|3\n";
    let entries = Entries::load(text).unwrap();
    assert_eq!(entries.len(), 3);
    assert_eq!(entries.entry_at(1).alias, "c");
    assert_eq!(entries.entry_at(2).alias, "b");
    assert_eq!(entries.entry_at(3).alias, "a");
    assert_eq!(entries.block_count(), 2);
    assert_eq!(entries.positions_in_block(1), (1, 2));
    assert_eq!(entries.positions_in_block(2), (2, 4));
}

#[test]
fn blocks_split_on_blank_lines_only() {
    let entries = Entries::load("a|/a|1\nb|/b|2\n\n\n\nc|/c|3").unwrap();
    assert_eq!(entries.block_count(), 2);
    assert_eq!(entries.positions_in_block(1), (1, 2));
    let empty = Entries::load("").unwrap();
    assert_eq!(empty.len(), 0);
    assert_eq!(empty.block_count(), 0);
    let blank = Entries::load("\n\n\n").unwrap();
    assert_eq!(blank.len(), 0);
}

#[test]
fn single_index_on_three_entries() {
    let entries = Entries::load("a|/a|1\nb|/b|2\nc|/c|3\n").unwrap();
    let got = resolve(&entries, vec![Criterion::Index(Index::new(1, 1))], &no_context());
    assert_eq!(got, vec![1]);
    assert_eq!(entries.entry_at(1), &entry("c", "/c", 3));
}

#[test]
fn reversed_index_range_is_empty() {
    let entries = Entries::load("a|/a|1\nb|/b|2\nc|/c|3\n").unwrap();
    let got = resolve(&entries, vec![Criterion::Index(Index::new(4, 2))], &no_context());
    assert!(got.is_empty());
}

#[test]
fn open_index_range_is_clamped() {
    let entries = Entries::load("a|/a|1\nb|/b|2\nc|/c|3\n").unwrap();
    let got = resolve(&entries, vec![Criterion::Index(Index::new(2, usize::MAX))], &no_context());
    assert_eq!(got, vec![2, 3]);
    let got = resolve(&entries, vec![Criterion::Index(Index::new(0, 1))], &no_context());
    assert_eq!(got, vec![1]);
}

#[test]
fn union_of_two_selectors() {
    let entries = Entries::load("a|/a|1\nb|/b|2\nc|/c|3\nd|/d|4\n").unwrap();
    let ctx = no_context();
    let one = resolve(&entries, vec![Criterion::Index(Index::new(1, 2))], &ctx);
    let two = resolve(&entries, vec![Criterion::Index(Index::new(2, 3))], &ctx);
    let both = resolve(
        &entries,
        vec![Criterion::Index(Index::new(1, 2)), Criterion::Index(Index::new(2, 3))],
        &ctx,
    );
    let flipped = resolve(
        &entries,
        vec![Criterion::Index(Index::new(2, 3)), Criterion::Index(Index::new(1, 2))],
        &ctx,
    );
    assert_eq!(one, vec![1, 2]);
    assert_eq!(two, vec![2, 3]);
    assert_eq!(both, vec![1, 2, 3]);
    assert_eq!(flipped, both);
    let twice = resolve(
        &entries,
        vec![Criterion::Index(Index::new(2, 3)), Criterion::Index(Index::new(2, 3))],
        &ctx,
    );
    assert_eq!(twice, two);
}

#[test]
fn missing_timestamp_is_reported() {
    match Entries::load("a|/a|1\nb|/b\nc|/c|3\n") {
        Err(Error::MissingData(line, pos, field)) => {
            assert_eq!(line, "b|/b");
            assert_eq!(pos, 2);
            assert_eq!(field, "timestamp");
        }
        other => panic!("unexpected {:?}", other),
    }
    match Entries::load("a\n") {
        Err(Error::MissingData(line, pos, field)) => {
            assert_eq!(line, "a");
            assert_eq!(pos, 1);
            assert_eq!(field, "name");
        }
        other => panic!("unexpected {:?}", other),
    }
}

#[test]
fn corrupted_timestamp_is_reported() {
    match Entries::load("a|/a|1\nb|/b|x2\n") {
        Err(Error::CorruptedTimestamp(t)) => assert_eq!(t, "x2"),
        other => panic!("unexpected {:?}", other),
    }
    match Entries::load("a|/a|18446744073709551616\n") {
        Err(Error::CorruptedTimestamp(t)) => assert_eq!(t, "18446744073709551616"),
        other => panic!("unexpected {:?}", other),
    }
    let max = Entries::load("a|/a|18446744073709551615|extra\n").unwrap();
    assert_eq!(max.entry_at(1).timestamp, u64::MAX);
}

#[test]
fn batch_removed_together_is_block_one() {
    let mut log = String::new();
    log.push_str(&batch_text(&vec![entry("x", "/old", 5)]));
    log.push_str(&batch_text(&vec![entry("p", "/one", 10), entry("q", "/two", 10)]));
    let entries = Entries::load(&log).unwrap();
    let got = resolve(&entries, vec![Criterion::Block(Block::new(1, 1))], &no_context());
    assert_eq!(got, vec![1, 2]);
    let names: Vec<String> = got.iter().map(|p| entries.entry_at(*p).name.clone()).collect();
    assert_eq!(names, vec!["/two".to_string(), "/one".to_string()]);
    let older = resolve(&entries, vec![Criterion::Block(Block::new(2, 5))], &no_context());
    assert_eq!(older, vec![3]);
}

#[test]
fn log_round_trip() {
    let batches = vec![
        vec![entry("a1", "/abs/path/one", 1700000000), entry("a2", "/abs/path/two", 1700000005)],
        vec![entry("a3", "/abs/path/three", 1700100000)],
    ];
    let mut log = String::new();
    for b in &batches {
        log.push_str(&batch_text(b));
    }
    assert_eq!(
        log,
        "\na1|/abs/path/one|1700000000\na2|/abs/path/two|1700000005\n\na3|/abs/path/three|1700100000\n"
    );
    let entries = Entries::load(&log).unwrap();
    assert_eq!(entries.encode(), log);
    assert_eq!(encode(entries.entry_at(1)), "a3|/abs/path/three|1700100000");
}

#[test]
fn time_window_over_ages() {
    let entries = Entries::load("a|/a|100\nb|/b|150\nc|/c|200\nd|/d|500\n").unwrap();
    let ctx = Context { now: 300, picked: vec![] };
    let got = resolve(&entries, vec![Criterion::Time(Time::new(100, 150))], &ctx);
    assert_eq!(got, vec![2, 3]);
    let all = resolve(&entries, vec![Criterion::Time(Time::new(0, u64::MAX))], &ctx);
    assert_eq!(all, vec![2, 3, 4]);
}

#[test]
fn picked_positions_are_checked() {
    let entries = Entries::load("a|/a|1\nb|/b|2\n").unwrap();
    let ctx = Context { now: 0, picked: vec![2, 7, 0, 2] };
    let got = resolve(&entries, vec![Criterion::Fzf(Fzf {})], &ctx);
    assert_eq!(got, vec![2]);
}

#[test]
fn pattern_matches_paths() {
    let entries = Entries::load("a|/home/x.txt|1\nb|/tmp/y.rs|2\nc|/home/z.rs|3\n").unwrap();
    let re = rem::command::Pattern("^/home".to_string()).make().unwrap();
    let got = resolve(&entries, vec![Criterion::Pattern(re)], &no_context());
    assert_eq!(got, vec![1, 3]);
    let mut selection = Selection::new();
    entries.select_where(&vec![false, true, false], &mut selection);
    assert_eq!(selection.positions(), &vec![2]);
}

#[test]
fn selection_is_an_ordered_set() {
    let mut s = Selection::new();
    s.insert(5);
    s.insert(2);
    s.insert(5);
    s.insert(9);
    assert_eq!(s.positions(), &vec![2, 5, 9]);
    assert!(s.contains(2));
    assert!(!s.contains(3));
}

#[test]
fn actions_on_a_selection() {
    let entries = Entries::load("a|/x/one|1\nb|/x/two|2\n").unwrap();
    let cfg = rem::config::Config::new("/r".to_string(), "ls", "sk");
    let mut s = Selection::new();
    s.insert(1);
    s.insert(2);
    assert_eq!(entries.info(&cfg, &s), vec!["/r/registry/b/meta".to_string(), "/r/registry/a/meta".to_string()]);
    assert_eq!(entries.delete(&cfg, &s), vec!["/r/registry/b".to_string(), "/r/registry/a".to_string()]);
    let moves = entries.restore(&cfg, &s);
    assert_eq!(moves[0].from, "/r/registry/b/file");
    assert_eq!(moves[0].to, "/x/two");
    assert_eq!(entry("a", "/home/u/f", 1).true_name("/home/u"), "~/f");
}

#[test]
fn removal_steps() {
    let r = Removal { registry: "/r".to_string(), alias: "AB".to_string(), timestamp: 7, sandbox: false };
    let (s, a) = r.start("f".to_string());
    assert_eq!(a, RemovalAction::Resolve("f".to_string()));
    let (s, a) = r.step(s, RemovalEvent::Resolved(Some("/w/f".to_string())));
    assert_eq!(a, RemovalAction::CreateDir("/r/AB".to_string()));
    let (s, a) = r.step(s, RemovalEvent::Created(true));
    assert_eq!(a, RemovalAction::RecordMeta { file: "/w/f".to_string(), meta: "/r/AB/meta".to_string() });
    let (s, a) = r.step(s, RemovalEvent::Recorded(None));
    assert_eq!(a, RemovalAction::Move { from: "/w/f".to_string(), to: "/r/AB/file".to_string() });
    let (done, a) = r.step(s, RemovalEvent::Moved(true));
    assert_eq!(a, RemovalAction::Done);
    match done {
        RemovalState::Committed(e) => assert_eq!(e, entry("AB", "/w/f", 7)),
        other => panic!("unexpected {:?}", other),
    }
    let (s, _) = r.start("g".to_string());
    let (s, _) = r.step(s, RemovalEvent::Resolved(Some("/w/g".to_string())));
    let (s, _) = r.step(s, RemovalEvent::Created(true));
    let (s, _) = r.step(s, RemovalEvent::Recorded(None));
    let (failed, a) = r.step(s, RemovalEvent::Moved(false));
    assert_eq!(a, RemovalAction::RemoveDir("/r/AB".to_string()));
    assert!(matches!(failed, RemovalState::Failed(Error::CouldNotMove(_, _))));
    let (s, _) = r.start("h".to_string());
    let (failed, _) = r.step(s, RemovalEvent::Resolved(None));
    assert!(matches!(failed, RemovalState::Failed(Error::FileDoesNotExist(_))));
    let dry = Removal { sandbox: true, ..r };
    let (s, _) = dry.start("f".to_string());
    let (failed, a) = dry.step(s, RemovalEvent::Resolved(Some("/w/f".to_string())));
    assert!(matches!(failed, RemovalState::Failed(Error::SandBoxed)));
    assert!(matches!(a, RemovalAction::Describe { .. }));
}

#[test]
fn aliases_are_alphanumeric() {
    let a = rem::exec::generate_random_dirname();
    assert_eq!(a.chars().count(), rem::exec::ALIAS_LENGTH);
    assert!(a.chars().all(|c| c.is_ascii_alphanumeric()));
}

#[test]
fn config_choices() {
    let cfg = rem::config::Config::new("/r/".to_string(), "exa", "fzf");
    assert_eq!(cfg.history(), "/r/history");
    assert_eq!(cfg.registry(), "/r/registry");
    assert_eq!(cfg.root(), "/r/");
    assert_eq!(cfg.ls_cmd(), "exa");
    assert_eq!(cfg.fzf_cmd(), "fzf");
    assert_eq!(rem::config::get_ls_cmd(Some("ls"), true).0, "ls");
    let (cmd, err) = rem::config::get_ls_cmd(Some("dir"), false);
    assert_eq!(cmd, "ls");
    assert!(matches!(err, Some(Error::InvalidVarLs(_))));
    let (cmd, notes) = rem::config::get_fzf_cmd(Some("nope"), false, false);
    assert_eq!(cmd, "sk");
    assert_eq!(notes.len(), 2);
    assert_eq!(rem::config::default_ls_cmd(true), "exa");
}

#[test]
fn home_written_as_tilde_everywhere() {
    assert_eq!(entry("a", "/h/x/h/y", 1).true_name("/h"), "~/x~/y");
    assert_eq!(entry("a", "/srv/x", 1).true_name("/home/u"), "/srv/x");
}
