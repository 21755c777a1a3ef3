use roxide::db::{NameLevel, Repository};
use roxide::error::Error;
use roxide::scan::get_handle_speed;
use roxide::table::{TableCell, TableCellColor};
use roxide::term::{
    bar_size, edit_items, edit_items_content, ensure_no_uncommitted, fzf_search, must_confirm, must_confirm_items,
    render_bar, CmdResult,
};

fn result(code: Option<i32>, stdout: &str) -> CmdResult {
    CmdResult { code, stdout: stdout.to_string(), stderr: String::new(), display: None }
}

#[test]
fn progress_bar_cells() {
    assert_eq!(bar_size(20), 0);
    assert_eq!(bar_size(21), 5);
    assert_eq!(bar_size(100), 25);
    assert_eq!(bar(0, 100, 10), "[          ]");
    assert_eq!(bar(35, 100, 10), "[==>       ]");
    assert_eq!(bar(100, 100, 10), "[=========>]");
    assert_eq!(bar(7, 0, 4), "[===>]");
    // The float product truncates: 100 * 0.29 is just below 29.
    assert_eq!(bar(29, 100, 100).matches('=').count() + 1, 28);
}

/// The bar as a caller draws it: the filled share scaled in floating point.
fn bar(current: usize, total: usize, size: usize) -> String {
    let scaled = if total == 0 { 0 } else { ((size as f64) * ((current as f64) / (total as f64))) as u64 };
    render_bar(current, total, size, scaled)
}

#[test]
fn confirmations() {
    assert!(must_confirm(true).is_ok());
    assert!(matches!(must_confirm(false), Err(Error::SilentExit(60))));
    let items = vec!["a".to_string()];
    assert!(must_confirm_items(&items, true).is_ok());
    assert!(matches!(must_confirm_items(&[], true), Err(Error::SilentExit(60))));
    assert!(matches!(must_confirm_items(&items, false), Err(Error::SilentExit(60))));
}

#[test]
fn edited_items_round_trip() {
    let items = vec!["one".to_string(), "two".to_string()];
    let content = edit_items_content(&items);
    assert_eq!(content, "one\ntwo");
    assert_eq!(edit_items(&content), items);
    assert_eq!(edit_items("  one \n\n two\n"), items);
}

#[test]
fn fzf_choice_and_uncommitted() {
    let keys = ["alpha", "beta"];
    assert_eq!(fzf_search(&keys, &result(Some(0), "beta\n")).unwrap(), 1);
    assert!(matches!(fzf_search(&keys, &result(Some(0), "gamma")), Err(Error::FzfKeyNotFound(k)) if k == "gamma"));
    assert!(fzf_search(&keys, &result(Some(130), "")).is_err());

    assert!(ensure_no_uncommitted(&result(Some(0), "")).is_ok());
    let dirty = ensure_no_uncommitted(&result(Some(0), " M a.rs\n?? b.rs\n"));
    assert!(matches!(dirty, Err(Error::UncommittedToHandle(2))));
    assert_eq!(Error::UncommittedToHandle(2).message(), "you have 2 uncommitted changes to handle");
}

#[test]
fn names_at_each_level() {
    let repo = Repository {
        remote: "github".to_string(),
        owner: "fioncat".to_string(),
        name: "roxide".to_string(),
        ..Default::default()
    };
    assert_eq!(repo.as_string(&NameLevel::Full), "github:fioncat/roxide");
    assert_eq!(repo.as_string(&NameLevel::Owner), "fioncat/roxide");
    assert_eq!(repo.as_string(&NameLevel::Name), "roxide");
    assert_eq!(repo.long_name(), "fioncat/roxide");
}

#[test]
fn files_per_second() {
    assert_eq!(get_handle_speed(0, 100), 0);
    assert_eq!(get_handle_speed(2_000_000_000, 100), 50);
    assert_eq!(get_handle_speed(3_000_000_000, 100), 33);
    assert_eq!(get_handle_speed(1, usize::MAX), u64::MAX);
}

#[test]
fn colored_cell() {
    let cell = TableCell::with_color("x".to_string(), TableCellColor::Red);
    assert_eq!(cell.text, "x");
    assert_eq!(cell.color, Some(TableCellColor::Red));
}
