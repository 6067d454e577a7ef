use rgfs::driver::select_action;
use rgfs::driver::RecordAction;
use rgfs::patch::apply_patch;
use rgfs::patch::compute_patch;
use rgfs::pattern::SignedPattern;
use rgfs::reconcile::exit_code;
use rgfs::reconcile::format_file_in_index;
use rgfs::reconcile::reconcile_all;
use rgfs::reconcile::FormatterResponse;
use rgfs::reconcile::Outcome;
use rgfs::record::parse_diff;

fn bytes(s: &str) -> Vec<u8> {
    s.as_bytes().to_vec()
}

fn ok_response(s: &str) -> FormatterResponse {
    FormatterResponse { exit_ok: true, stdout: bytes(s) }
}

#[test]
fn formatter_failure_writes_nothing() {
    let plan = format_file_in_index(
        &bytes("var x=1"),
        &FormatterResponse { exit_ok: false, stdout: bytes("junk") },
        true,
        true,
    );
    assert_eq!(plan.outcome, Outcome::Failed);
    assert!(plan.index_write.is_none());
    assert!(plan.worktree_patch.is_none());
}

#[test]
fn unchanged_output_writes_nothing() {
    let plan = format_file_in_index(&bytes("done\n"), &ok_response("done\n"), true, true);
    assert_eq!(plan.outcome, Outcome::Unchanged);
    assert!(plan.index_write.is_none());
    assert!(plan.worktree_patch.is_none());
}

#[test]
fn changed_output_updates_index_and_carries_a_patch() {
    let plan = format_file_in_index(&bytes("var x=1"), &ok_response("let x = 1;"), true, true);
    assert_eq!(plan.outcome, Outcome::Formatted);
    assert_eq!(plan.index_write, Some(bytes("let x = 1;")));
    let patch = plan.worktree_patch.expect("a patch for the working tree");
    let patched = apply_patch(&bytes("var x=1"), &patch).expect("clean apply");
    assert_eq!(patched, bytes("let x = 1;"));
}

#[test]
fn no_update_working_tree_skips_the_patch() {
    let plan = format_file_in_index(&bytes("a"), &ok_response("b"), false, true);
    assert_eq!(plan.outcome, Outcome::Formatted);
    assert_eq!(plan.index_write, Some(bytes("b")));
    assert!(plan.worktree_patch.is_none());
}

#[test]
fn no_write_never_mutates_but_keeps_the_verdict() {
    let plan = format_file_in_index(&bytes("var x=1"), &ok_response("let x = 1;"), true, false);
    assert_eq!(plan.outcome, Outcome::Formatted);
    assert!(plan.index_write.is_none());
    assert!(plan.worktree_patch.is_none());
    let plan = format_file_in_index(
        &bytes("var x=1"),
        &FormatterResponse { exit_ok: false, stdout: Vec::new() },
        true,
        false,
    );
    assert_eq!(plan.outcome, Outcome::Failed);
    assert!(plan.index_write.is_none());
    assert_eq!(exit_code(&vec![Outcome::Failed]), 1);
}

#[test]
fn empty_output_is_a_legitimate_result() {
    let plan = format_file_in_index(&bytes("stuff"), &ok_response(""), true, true);
    assert_eq!(plan.outcome, Outcome::Formatted);
    assert_eq!(plan.index_write, Some(Vec::new()));
}

#[test]
fn second_run_of_an_idempotent_formatter_is_a_no_op() {
    let staged = bytes("var x=1");
    let first = format_file_in_index(&staged, &ok_response("let x = 1;"), true, true);
    assert_eq!(first.outcome, Outcome::Formatted);
    let new_staged = first.index_write.unwrap();
    // An idempotent formatter returns its own output unchanged.
    let second = format_file_in_index(
        &new_staged,
        &FormatterResponse { exit_ok: true, stdout: new_staged.clone() },
        true,
        true,
    );
    assert_eq!(second.outcome, Outcome::Unchanged);
    assert!(second.index_write.is_none());
    assert!(second.worktree_patch.is_none());
}

#[test]
fn patch_preserves_disjoint_unstaged_edits() {
    // Staged content A, formatter output B differing in the middle; the
    // working tree holds A with a disjoint edit far from the change.
    let staged = bytes("header line one more text\nmiddle var x=1 middle\ntrailing context here\n");
    let formatted =
        bytes("header line one more text\nmiddle let x = 1; middle\ntrailing context here\n");
    let worktree =
        bytes("header line one more text\nmiddle var x=1 middle\ntrailing context here\nEXTRA\n");
    let patch = compute_patch(&staged, &formatted);
    let reconciled = apply_patch(&worktree, &patch).expect("disjoint edit must not conflict");
    let expected =
        bytes("header line one more text\nmiddle let x = 1; middle\ntrailing context here\nEXTRA\n");
    assert_eq!(reconciled, expected);
}

#[test]
fn conflicting_edit_refuses_to_apply() {
    let staged = bytes("aaaa var x=1 bbbb");
    let formatted = bytes("aaaa let x = 1; bbbb");
    // The working tree edited the very region the formatting changes.
    let worktree = bytes("aaaa var y=2 bbbb");
    let patch = compute_patch(&staged, &formatted);
    assert!(apply_patch(&worktree, &patch).is_none());
}

#[test]
fn one_failure_among_five_leaves_the_rest_processed() {
    let items = vec![
        (bytes("a1"), ok_response("A1")),
        (bytes("b2"), ok_response("B2")),
        (bytes("c3"), FormatterResponse { exit_ok: false, stdout: Vec::new() }),
        (bytes("d4"), ok_response("D4")),
        (bytes("e5"), ok_response("e5")),
    ];
    let plans = reconcile_all(&items, true, true);
    assert_eq!(plans.len(), 5);
    assert_eq!(plans[0].outcome, Outcome::Formatted);
    assert_eq!(plans[0].index_write, Some(bytes("A1")));
    assert_eq!(plans[1].outcome, Outcome::Formatted);
    assert_eq!(plans[2].outcome, Outcome::Failed);
    assert!(plans[2].index_write.is_none());
    assert_eq!(plans[3].outcome, Outcome::Formatted);
    assert_eq!(plans[3].index_write, Some(bytes("D4")));
    assert_eq!(plans[4].outcome, Outcome::Unchanged);
    let outcomes: Vec<Outcome> = plans.iter().map(|p| p.outcome).collect();
    assert_eq!(exit_code(&outcomes), 1);
    let fine = vec![Outcome::Formatted, Outcome::Unchanged, Outcome::Skipped];
    assert_eq!(exit_code(&fine), 0);
    assert_eq!(exit_code(&Vec::new()), 0);
}

const HASH_A: &str = "aaaaaaaaaaaaaaaaaaaaaaaaaaaaaaaaaaaaaaaa";
const HASH_B: &str = "0123456789abcdef0123456789abcdef01234567";

#[test]
fn end_to_end_scenario() {
    // Staged src/a.js with content "var x=1"; the formatter prints
    // "let x = 1;"; pattern list ["*.js"]; default flags.
    let input = format!("100644 100644 {} {} M src/a.js", HASH_A, HASH_B);
    let rec = parse_diff(&input.as_bytes().to_vec()).unwrap();
    let ps = vec![SignedPattern::from_str("*.js").unwrap()];
    let path = match select_action(&rec, &ps, None) {
        RecordAction::Format(path) => path,
        RecordAction::Skip(reason) => panic!("skipped: {:?}", reason),
    };
    assert_eq!(path, bytes("src/a.js"));
    let staged = bytes("var x=1");
    let plan = format_file_in_index(&staged, &ok_response("let x = 1;"), true, true);
    assert_eq!(plan.outcome, Outcome::Formatted);
    assert_eq!(plan.index_write, Some(bytes("let x = 1;")));
    let worktree = staged.clone();
    let reconciled = apply_patch(&worktree, &plan.worktree_patch.unwrap()).unwrap();
    assert_eq!(reconciled, bytes("let x = 1;"));
    assert_eq!(exit_code(&vec![plan.outcome]), 0);
}
