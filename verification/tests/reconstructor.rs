use async_stack_traces::inspect;
use async_stack_traces::model::{Layout, Snapshot, SuspendedValue, TypeDesc, TAG_AWAIT, TAG_EVENT, TAG_SELECT, STATUS_ACTIVE, STATUS_COMPLETE, STATUS_NOT_STARTED};
use async_stack_traces::reader::{classify, InspectError};
use async_stack_traces::frame::synthesize;
use async_stack_traces::walker::walk;
use async_stack_traces::printer::render;
use async_stack_traces::DEPTH_LIMIT;

fn td(name: &str, layout: Layout) -> TypeDesc {
    TypeDesc { name: name.to_string(), layout }
}

fn await_ty(name: &str, locals: &[&str], callee: TypeDesc) -> TypeDesc {
    td(
        name,
        Layout::Await {
            locals: locals.iter().map(|s| s.to_string()).collect(),
            callee: Box::new(callee),
        },
    )
}

fn pending_leaf() -> TypeDesc {
    td("futures_util::future::pending::Pending<u32>", Layout::Event)
}

/// The literal fixture: `foo(42)` awaits `bar(43)`; `bar` computes `a = 86`
/// and races three branches `baz(44)`, `baz(88)`, `baz(46)`; each `baz(x)`
/// computes `y = x << 1` and awaits a perpetually pending leaf.
fn fixture() -> (Snapshot, SuspendedValue) {
    let baz = |x: u64, y: u64| -> Vec<u64> { vec![TAG_AWAIT, x, y, TAG_EVENT] };
    let baz_ty = || await_ty("baz", &["x", "y"], pending_leaf());
    let race_ty = td(
        "race",
        Layout::Select { branches: vec![baz_ty(), baz_ty(), baz_ty()] },
    );
    let bar_ty = await_ty("bar", &["a", "x"], race_ty);
    let foo_ty = await_ty("foo", &["x"], bar_ty);

    let mut words: Vec<u64> = Vec::new();
    words.extend([TAG_AWAIT, 42]); // foo, x=42
    words.extend([TAG_AWAIT, 86, 43]); // bar, a=86, x=43
    words.push(TAG_SELECT); // the race over three baz branches
    for (x, y) in [(44, 88), (88, 176), (46, 92)] {
        words.push(STATUS_ACTIVE);
        words.extend(baz(x, y));
    }
    (Snapshot { words }, SuspendedValue { addr: 0, ty: foo_ty })
}

#[test]
fn race_fixture_report() {
    let (snap, value) = fixture();
    let text = inspect(&snap, &value).unwrap();
    let expected = "\
foo [x=42]
  bar [a=86, x=43]
    (race)
      => baz [x=44, y=88]
        futures_util::future::pending::Pending<u32>
      => baz [x=88, y=176]
        futures_util::future::pending::Pending<u32>
      => baz [x=46, y=92]
        futures_util::future::pending::Pending<u32>
";
    assert_eq!(text, expected);
}

#[test]
fn deterministic_rendering() {
    let (snap, value) = fixture();
    let first = inspect(&snap, &value).unwrap();
    let second = inspect(&snap, &value).unwrap();
    assert_eq!(first, second);
}

#[test]
fn sequential_chain_has_n_plus_one_frames() {
    // Two nested awaits and the pending leaf: exactly three lines,
    // caller above callee.
    let inner = await_ty("inner", &["b"], pending_leaf());
    let outer = await_ty("outer", &["a"], inner);
    let snap = Snapshot { words: vec![TAG_AWAIT, 7, TAG_AWAIT, 9, TAG_EVENT] };
    let value = SuspendedValue { addr: 0, ty: outer };
    let text = inspect(&snap, &value).unwrap();
    let lines: Vec<&str> = text.lines().collect();
    assert_eq!(lines.len(), 3);
    assert_eq!(lines[0], "outer [a=7]");
    assert_eq!(lines[1], "  inner [b=9]");
    assert_eq!(lines[2], "    futures_util::future::pending::Pending<u32>");
}

#[test]
fn combinator_emits_every_branch_in_declared_order() {
    // Four branches in declared construction order, regardless of which
    // would eventually win.
    let branch = |n: &str| await_ty(n, &["v"], pending_leaf());
    let race = td(
        "race",
        Layout::Select {
            branches: vec![branch("b0"), branch("b1"), branch("b2"), branch("b3")],
        },
    );
    let mut words = vec![TAG_SELECT];
    for v in [10, 11, 12, 13] {
        words.extend([STATUS_ACTIVE, TAG_AWAIT, v, TAG_EVENT]);
    }
    let snap = Snapshot { words };
    let value = SuspendedValue { addr: 0, ty: race };
    let text = inspect(&snap, &value).unwrap();
    let intros: Vec<&str> = text.lines().filter(|l| l.trim_start().starts_with("=> ")).collect();
    assert_eq!(intros.len(), 4);
    assert_eq!(intros[0].trim_start(), "=> b0 [v=10]");
    assert_eq!(intros[1].trim_start(), "=> b1 [v=11]");
    assert_eq!(intros[2].trim_start(), "=> b2 [v=12]");
    assert_eq!(intros[3].trim_start(), "=> b3 [v=13]");
}

#[test]
fn not_started_branch_renders_placeholder() {
    // A branch that has never been polled is a distinguishable placeholder,
    // never an error: the inspection still succeeds.
    let race = td(
        "race",
        Layout::Select { branches: vec![pending_leaf(), pending_leaf()] },
    );
    let snap = Snapshot {
        words: vec![TAG_SELECT, STATUS_ACTIVE, TAG_EVENT, STATUS_NOT_STARTED, 999],
    };
    let value = SuspendedValue { addr: 0, ty: race };
    let text = inspect(&snap, &value).unwrap();
    let expected = "\
(race)
  => futures_util::future::pending::Pending<u32>
  => <not yet started>
";
    assert_eq!(text, expected);
}

#[test]
fn complete_branch_renders_terminal_leaf() {
    let race = td(
        "race",
        Layout::Select { branches: vec![pending_leaf(), pending_leaf()] },
    );
    let snap = Snapshot {
        words: vec![TAG_SELECT, STATUS_COMPLETE, 0, STATUS_ACTIVE, TAG_EVENT],
    };
    let value = SuspendedValue { addr: 0, ty: race };
    let text = inspect(&snap, &value).unwrap();
    let expected = "\
(race)
  => (complete, not yet observed)
  => futures_util::future::pending::Pending<u32>
";
    assert_eq!(text, expected);
}

#[test]
fn unrecognized_layout_renders_opaque_leaf() {
    // A tag word matching no known shape is recovered as an opaque leaf
    // labeled with the raw type name; the walk goes on.
    let inner = td("mystery::Widget", Layout::Event);
    let outer = await_ty("outer", &["a"], inner);
    let snap = Snapshot { words: vec![TAG_AWAIT, 5, 777] };
    let value = SuspendedValue { addr: 0, ty: outer };
    let text = inspect(&snap, &value).unwrap();
    let expected = "\
outer [a=5]
  mystery::Widget
";
    assert_eq!(text, expected);
}

#[test]
fn unknown_branch_status_renders_opaque_branch() {
    let race = td("race", Layout::Select { branches: vec![pending_leaf()] });
    let snap = Snapshot { words: vec![TAG_SELECT, 7, TAG_EVENT] };
    let value = SuspendedValue { addr: 0, ty: race };
    let text = inspect(&snap, &value).unwrap();
    let expected = "\
(race)
  => futures_util::future::pending::Pending<u32>
";
    assert_eq!(text, expected);
}

#[test]
fn unreadable_region_fails_whole_inspection() {
    // The value's region extends one word past the captured snapshot.
    let outer = await_ty("outer", &["a"], pending_leaf());
    let snap = Snapshot { words: vec![TAG_AWAIT, 5] };
    let value = SuspendedValue { addr: 0, ty: outer };
    let r = inspect(&snap, &value);
    assert!(matches!(r, Err(InspectError::TargetUnreadable)));
    // An address past the end fails too, even for a one-word leaf.
    let r2 = inspect(&snap, &SuspendedValue { addr: 2, ty: pending_leaf() });
    assert!(matches!(r2, Err(InspectError::TargetUnreadable)));
}

#[test]
fn depth_limit_truncates_with_visible_marker() {
    // A chain deeper than the walker's depth budget is cut with a visible
    // truncation marker instead of looping.
    let mut ty = pending_leaf();
    let mut words_tail: Vec<u64> = vec![TAG_EVENT];
    for _ in 0..400 {
        ty = await_ty("step", &[], ty);
        words_tail.push(TAG_AWAIT);
    }
    words_tail.reverse();
    let snap = Snapshot { words: words_tail };
    let value = SuspendedValue { addr: 0, ty };
    let text = inspect(&snap, &value).unwrap();
    assert!(text.lines().last().unwrap().trim_start() == "(truncated: depth limit reached)");
    assert!(!text.contains("futures_util"));
}

#[test]
fn decimal_values_render_exactly() {
    let leaf = pending_leaf();
    let ty = await_ty("f", &["zero", "one", "ten", "big"], leaf);
    let snap = Snapshot {
        words: vec![TAG_AWAIT, 0, 1, 10, u64::MAX, TAG_EVENT],
    };
    let value = SuspendedValue { addr: 0, ty };
    let text = inspect(&snap, &value).unwrap();
    assert_eq!(
        text.lines().next().unwrap(),
        "f [zero=0, one=1, ten=10, big=18446744073709551615]"
    );
}

#[test]
fn region_not_at_origin_is_read_at_its_address() {
    // The suspended value need not sit at the start of the captured region.
    let ty = await_ty("g", &["v"], pending_leaf());
    let snap = Snapshot { words: vec![0, 0, 0, TAG_AWAIT, 31, TAG_EVENT] };
    let value = SuspendedValue { addr: 3, ty };
    let text = inspect(&snap, &value).unwrap();
    assert_eq!(text.lines().next().unwrap(), "g [v=31]");
}

#[test]
fn staged_pipeline_matches_inspect() {
    let (snap, value) = fixture();
    let node = classify(&snap, &value).unwrap();
    let root = synthesize(node);
    let report = walk(root, DEPTH_LIMIT);

    // foo, bar, the selection marker, then one frame and one pending leaf per
    // branch, in declared order.
    assert_eq!(report.entries.len(), 9);
    let depths: Vec<usize> = report.entries.iter().map(|e| e.depth).collect();
    assert_eq!(depths, vec![0, 1, 2, 3, 4, 3, 4, 3, 4]);
    let arrows: Vec<bool> = report.entries.iter().map(|e| e.arrow).collect();
    assert_eq!(
        arrows,
        vec![false, false, false, true, false, true, false, true, false]
    );

    let text = render(&report);
    assert_eq!(text, inspect(&snap, &value).unwrap());
}
