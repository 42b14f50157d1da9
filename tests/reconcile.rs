use po_missing::entry::Entry;
use po_missing::reconcile::{
    find_header, find_unit, merge_back, plan_missing, recompute_missing, reconcile,
};
use po_missing::tally::{LocaleOutcome, Tally};

fn entry(key: &str, translation: Option<&str>) -> Entry {
    Entry::new(key.to_string(), None, translation.map(|t| t.to_string()))
}

fn entry_ctx(key: &str, context: &str, translation: Option<&str>) -> Entry {
    Entry::new(
        key.to_string(),
        Some(context.to_string()),
        translation.map(|t| t.to_string()),
    )
}

fn header() -> Entry {
    entry("", Some("Content-Type: text/plain; charset=UTF-8\n"))
}

#[test]
fn merge_fills_untranslated_entry_and_leaves_no_missing_file() {
    let mut main = vec![entry("a", None), entry("b", Some("x"))];
    let missing = Some(vec![entry("a", Some("merged"))]);
    let r = reconcile(&mut main, &missing);
    assert_eq!(main, vec![entry("a", Some("merged")), entry("b", Some("x"))]);
    assert_eq!(r.merged, 1);
    assert!(r.main_changed());
    assert_eq!(r.missing, None);
}

#[test]
fn blank_translations_never_alter_main() {
    let before = vec![header(), entry("a", None), entry("b", Some(""))];
    let mut main = before.clone();
    let missing = Some(vec![
        header(),
        entry("a", Some("   ")),
        entry("b", Some("\t\n")),
        entry("b", None),
    ]);
    let r = reconcile(&mut main, &missing);
    assert_eq!(main, before);
    assert_eq!(r.merged, 0);
    assert!(!r.main_changed());
    assert_eq!(r.missing, Some(before.clone()));
}

#[test]
fn header_leads_recomputed_missing_catalog() {
    let mut main = vec![header(), entry("a", Some("A")), entry("b", None)];
    let r = reconcile(&mut main, &None);
    assert_eq!(r.missing, Some(vec![header(), entry("b", None)]));
}

#[test]
fn header_alone_writes_no_missing_file() {
    let mut main = vec![header(), entry("a", Some("A"))];
    let r = reconcile(&mut main, &None);
    assert_eq!(r.missing, None);
    assert_eq!(recompute_missing(&main), vec![header()]);
}

#[test]
fn second_reconcile_changes_nothing() {
    let mut main = vec![
        header(),
        entry("a", None),
        entry("b", Some("x")),
        entry("c", Some(" ")),
    ];
    let missing = Some(vec![entry("a", Some("A"))]);
    let first = reconcile(&mut main, &missing);
    assert_eq!(first.merged, 1);
    let after_first = main.clone();
    let second = reconcile(&mut main, &first.missing);
    assert_eq!(second.merged, 0);
    assert_eq!(main, after_first);
    assert_eq!(second.missing, first.missing);
    assert_eq!(
        second.missing,
        Some(vec![header(), entry("c", Some(" "))])
    );
}

#[test]
fn recomputing_missing_twice_gives_the_same_catalog() {
    let main = vec![entry("a", None), header(), entry("b", Some("x")), entry("c", Some(""))];
    let once = recompute_missing(&main);
    assert_eq!(once, recompute_missing(&main));
    assert_eq!(once, vec![header(), entry("a", None), entry("c", Some(""))]);
    assert_eq!(recompute_missing(&once), once);
}

#[test]
fn absent_missing_catalog_still_recomputes() {
    let mut main = vec![entry("a", None), entry("b", Some("x"))];
    let r = reconcile(&mut main, &None);
    assert_eq!(r.merged, 0);
    assert_eq!(main, vec![entry("a", None), entry("b", Some("x"))]);
    assert_eq!(r.missing, Some(vec![entry("a", None)]));
}

#[test]
fn merge_targets_first_duplicate_only() {
    let mut main = vec![entry("a", None), entry("a", None)];
    let n = merge_back(&mut main, &vec![entry("a", Some("A"))]);
    assert_eq!(n, 1);
    assert_eq!(main, vec![entry("a", Some("A")), entry("a", None)]);
}

#[test]
fn merge_matches_key_and_context() {
    let mut main = vec![entry("open", None), entry_ctx("open", "menu", None)];
    let n = merge_back(&mut main, &vec![entry_ctx("open", "menu", Some("Ouvrir"))]);
    assert_eq!(n, 1);
    assert_eq!(
        main,
        vec![entry("open", None), entry_ctx("open", "menu", Some("Ouvrir"))]
    );
}

#[test]
fn merge_ignores_unmatched_and_header_entries() {
    let mut main = vec![entry("", None), entry("a", None)];
    let missing = vec![entry("", Some("metadata")), entry("zzz", Some("Z"))];
    let n = merge_back(&mut main, &missing);
    assert_eq!(n, 0);
    assert_eq!(main, vec![entry("", None), entry("a", None)]);
}

#[test]
fn merged_translation_is_kept_verbatim() {
    let mut main = vec![entry("a", Some(""))];
    let n = merge_back(&mut main, &vec![entry("a", Some("  padded "))]);
    assert_eq!(n, 1);
    assert_eq!(main, vec![entry("a", Some("  padded "))]);
}

#[test]
fn unmatched_completed_entry_does_not_rewrite_main() {
    let mut main = vec![entry("a", None)];
    let r = reconcile(&mut main, &Some(vec![entry("b", Some("B"))]));
    assert_eq!(r.merged, 0);
    assert!(!r.main_changed());
    assert_eq!(r.missing, Some(vec![entry("a", None)]));
}

#[test]
fn whitespace_only_translation_counts_as_missing() {
    assert!(entry("a", Some(" \t\n ")).is_untranslated());
    assert!(entry("a", None).is_untranslated());
    assert!(!entry("a", Some(" x ")).is_untranslated());
    assert!(entry("a", Some(" x ")).is_completed());
    assert!(!entry("", Some("x")).is_completed());
}

#[test]
fn find_unit_and_header_report_first_positions() {
    let cat = vec![entry("a", None), header(), entry_ctx("a", "c", None), entry("", None)];
    assert_eq!(find_unit(&cat, &entry_ctx("a", "c", Some("x"))), Some(2));
    assert_eq!(find_unit(&cat, &entry("a", Some("x"))), Some(0));
    assert_eq!(find_unit(&cat, &entry("b", None)), None);
    assert_eq!(find_header(&cat), Some(1));
    assert_eq!(find_header(&vec![entry("a", None)]), None);
}

#[test]
fn plan_lists_header_and_untranslated_positions() {
    let cat = vec![header(), entry("a", Some("A")), entry("b", None), entry("c", Some(" "))];
    let plan = plan_missing(&cat);
    assert_eq!(plan.header, Some(0));
    assert_eq!(plan.units, vec![2, 3]);
    assert!(plan.has_units());
    let none = plan_missing(&vec![header(), entry("a", Some("A"))]);
    assert_eq!(none.units, Vec::<usize>::new());
    assert!(!none.has_units());
}

#[test]
fn empty_catalogs_reconcile_to_nothing() {
    let mut main: Vec<Entry> = Vec::new();
    let r = reconcile(&mut main, &Some(Vec::new()));
    assert_eq!(r.merged, 0);
    assert_eq!(r.missing, None);
    assert!(main.is_empty());
}

#[test]
fn skipped_locale_is_no_error() {
    let mut t = Tally::new();
    t.record(LocaleOutcome::Skipped);
    assert_eq!(t.processed, 1);
    assert_eq!(t.errors, 0);
    assert!(t.succeeded());
}

#[test]
fn failed_locale_counts_an_error() {
    let mut t = Tally::new();
    t.record(LocaleOutcome::Reconciled);
    t.record(LocaleOutcome::Failed);
    t.record(LocaleOutcome::Reconciled);
    assert_eq!(t.processed, 2);
    assert_eq!(t.errors, 1);
    assert!(!t.succeeded());
}
