use sdk_lints::changelog::{
    update_changelogs, Category, ChangelogState, ParseError, ParseErrorKind,
    PendingChangelogEntry, Target,
};
use sdk_lints::changelog::{category, parse_pending, render_section_bytes};

fn entry(
    target: Target,
    message: &str,
    author: &str,
    refs: &[&str],
    breaking: bool,
    feature: bool,
    bug: bool,
) -> PendingChangelogEntry {
    PendingChangelogEntry {
        target,
        message: message.as_bytes().to_vec(),
        author: author.as_bytes().to_vec(),
        references: refs.iter().map(|r| r.as_bytes().to_vec()).collect(),
        breaking,
        feature,
        bug,
    }
}

fn count_occurrences(hay: &[u8], needle: &[u8]) -> usize {
    if needle.is_empty() || hay.len() < needle.len() {
        return 0;
    }
    hay.windows(needle.len()).filter(|w| *w == needle).count()
}

#[test]
fn concrete_scenario_publishes_sdk_bug_fix() {
    let pending = b"target=sdk\nmessage=Fix retry bug\nauthor=\nrefs=\nbreaking=false\nfeature=false\nbug=true\n";
    let mut state = ChangelogState {
        smithy_doc: b"## 0.0.9 (2023-12-01)\nold smithy\n".to_vec(),
        sdk_doc: b"## 0.1.9 (2023-12-01)\nold sdk\n".to_vec(),
        pending: pending.to_vec(),
    };
    let old_smithy = state.smithy_doc.clone();
    let old_sdk = state.sdk_doc.clone();
    let r = update_changelogs(&mut state, b"0.1.0", b"0.2.0", b"2024-01-01");
    assert!(r.is_ok());
    // The generator changelog is untouched: no entry targeted it.
    assert_eq!(state.smithy_doc, old_smithy);
    // The SDK changelog gained one leading section with the entry under the
    // bug-fix category, ahead of all pre-existing sections.
    let mut expected = b"## 0.2.0 (2024-01-01)\n\n### Bug fixes\n- Fix retry bug (@)\n".to_vec();
    expected.extend_from_slice(&old_sdk);
    assert_eq!(state.sdk_doc, expected);
    // The queue is cleared.
    assert!(state.pending.is_empty());
}

#[test]
fn idempotent_publish_on_empty_queue() {
    let mut state = ChangelogState {
        smithy_doc: b"## 1.0.0 (2023-01-01)\nsomething\n".to_vec(),
        sdk_doc: b"## 2.0.0 (2023-01-01)\nelse\n".to_vec(),
        pending: Vec::new(),
    };
    let old_smithy = state.smithy_doc.clone();
    let old_sdk = state.sdk_doc.clone();
    let r = update_changelogs(&mut state, b"1.1.0", b"2.1.0", b"2024-06-01");
    assert!(r.is_ok());
    assert_eq!(state.smithy_doc, old_smithy);
    assert_eq!(state.sdk_doc, old_sdk);
    assert!(state.pending.is_empty());
}

#[test]
fn blank_lines_between_entries_are_ignored() {
    let pending = b"\ntarget=smithy\nmessage=A change\nauthor=dev\nrefs=\nbreaking=false\nfeature=true\nbug=false\n\n\n";
    let entries = parse_pending(pending).unwrap();
    assert_eq!(entries.len(), 1);
    assert_eq!(entries[0].target, Target::Smithy);
    assert_eq!(entries[0].message, b"A change".to_vec());
    assert!(entries[0].feature);
}

#[test]
fn no_duplication_across_documents() {
    let pending = b"target=smithy\nmessage=generator change xyzzy\nauthor=a\nrefs=\nbreaking=false\nfeature=false\nbug=false\n\
target=sdk\nmessage=sdk change plugh\nauthor=b\nrefs=\nbreaking=false\nfeature=false\nbug=true\n";
    let mut state = ChangelogState {
        smithy_doc: Vec::new(),
        sdk_doc: Vec::new(),
        pending: pending.to_vec(),
    };
    let r = update_changelogs(&mut state, b"0.1.0", b"0.2.0", b"2024-01-01");
    assert!(r.is_ok());
    // Each entry's rendered text appears in exactly one document, exactly once.
    assert_eq!(count_occurrences(&state.smithy_doc, b"generator change xyzzy"), 1);
    assert_eq!(count_occurrences(&state.sdk_doc, b"generator change xyzzy"), 0);
    assert_eq!(count_occurrences(&state.sdk_doc, b"sdk change plugh"), 1);
    assert_eq!(count_occurrences(&state.smithy_doc, b"sdk change plugh"), 0);
}

#[test]
fn ordering_breaking_before_bug_fix_and_new_section_first() {
    let pending = b"target=sdk\nmessage=first breaking\nauthor=a\nrefs=\nbreaking=true\nfeature=false\nbug=false\n\
target=sdk\nmessage=second bugfix\nauthor=b\nrefs=\nbreaking=false\nfeature=false\nbug=true\n";
    let mut state = ChangelogState {
        smithy_doc: Vec::new(),
        sdk_doc: b"## 0.1.0 (2023-01-01)\npre-existing section\n".to_vec(),
        pending: pending.to_vec(),
    };
    let r = update_changelogs(&mut state, b"0.1.0", b"0.2.0", b"2024-01-01");
    assert!(r.is_ok());
    let doc = String::from_utf8(state.sdk_doc.clone()).unwrap();
    let breaking_heading = doc.find("### Breaking changes").unwrap();
    let first = doc.find("first breaking").unwrap();
    let bug_heading = doc.find("### Bug fixes").unwrap();
    let second = doc.find("second bugfix").unwrap();
    let pre_existing = doc.find("pre-existing section").unwrap();
    assert!(breaking_heading < first);
    assert!(first < bug_heading);
    assert!(bug_heading < second);
    // The new section stands ahead of every previously existing section.
    assert!(second < pre_existing);
    assert!(doc.starts_with("## 0.2.0 (2024-01-01)\n"));
}

#[test]
fn failed_parse_leaves_state_unchanged() {
    // The second entry is cut short, so the whole publish must abort with
    // neither document altered and the queue intact.
    let pending = b"target=sdk\nmessage=fine\nauthor=a\nrefs=\nbreaking=false\nfeature=false\nbug=true\ntarget=sdk\nmessage=cut short\n";
    let mut state = ChangelogState {
        smithy_doc: b"smithy before\n".to_vec(),
        sdk_doc: b"sdk before\n".to_vec(),
        pending: pending.to_vec(),
    };
    let r = update_changelogs(&mut state, b"0.1.0", b"0.2.0", b"2024-01-01");
    assert_eq!(r, Err(ParseError { entry: 1, kind: ParseErrorKind::IncompleteEntry }));
    assert_eq!(state.smithy_doc, b"smithy before\n".to_vec());
    assert_eq!(state.sdk_doc, b"sdk before\n".to_vec());
    assert_eq!(state.pending, pending.to_vec());
}

#[test]
fn parse_reports_unexpected_key() {
    let pending = b"targe=sdk\nmessage=m\nauthor=a\nrefs=\nbreaking=false\nfeature=false\nbug=true\n";
    let r = parse_pending(pending);
    assert_eq!(r.unwrap_err(), ParseError { entry: 0, kind: ParseErrorKind::UnexpectedKey });
}

#[test]
fn parse_reports_unknown_target() {
    let pending = b"target=elsewhere\nmessage=m\nauthor=a\nrefs=\nbreaking=false\nfeature=false\nbug=true\n";
    let r = parse_pending(pending);
    assert_eq!(r.unwrap_err(), ParseError { entry: 0, kind: ParseErrorKind::UnknownTarget });
}

#[test]
fn parse_reports_bad_flag_with_entry_index() {
    let pending = b"target=sdk\nmessage=m\nauthor=a\nrefs=\nbreaking=false\nfeature=false\nbug=true\n\
target=sdk\nmessage=m2\nauthor=a\nrefs=\nbreaking=maybe\nfeature=false\nbug=true\n";
    let r = parse_pending(pending);
    assert_eq!(r.unwrap_err(), ParseError { entry: 1, kind: ParseErrorKind::BadFlag });
}

#[test]
fn parse_splits_references_on_commas() {
    let pending = b"target=sdk\nmessage=m\nauthor=dev\nrefs=smithy-rs#1,smithy-rs#2\nbreaking=false\nfeature=false\nbug=false\n";
    let entries = parse_pending(pending).unwrap();
    assert_eq!(entries.len(), 1);
    assert_eq!(
        entries[0].references,
        vec![b"smithy-rs#1".to_vec(), b"smithy-rs#2".to_vec()]
    );
}

#[test]
fn rendered_item_lists_references_then_author() {
    let es = vec![entry(
        Target::Sdk,
        "Fix it",
        "dev",
        &["smithy-rs#123", "aws-sdk#9"],
        false,
        false,
        true,
    )];
    let section = render_section_bytes(b"0.5.0", b"2024-02-02", &es, Target::Sdk);
    let expected = b"## 0.5.0 (2024-02-02)\n\n### Bug fixes\n- Fix it (smithy-rs#123, aws-sdk#9, @dev)\n";
    assert_eq!(section, expected.to_vec());
}

#[test]
fn category_prefers_breaking_then_feature_then_bug() {
    let e1 = entry(Target::Sdk, "m", "a", &[], true, true, true);
    let e2 = entry(Target::Sdk, "m", "a", &[], false, true, true);
    let e3 = entry(Target::Sdk, "m", "a", &[], false, false, true);
    let e4 = entry(Target::Sdk, "m", "a", &[], false, false, false);
    assert_eq!(category(&e1), Category::Breaking);
    assert_eq!(category(&e2), Category::Feature);
    assert_eq!(category(&e3), Category::Bug);
    assert_eq!(category(&e4), Category::Other);
}

#[test]
fn empty_target_group_adds_no_section() {
    // Only an SDK entry: the generator document must stay byte-identical,
    // even though the publish succeeded and rewrote the SDK document.
    let pending = b"target=sdk\nmessage=only sdk\nauthor=a\nrefs=\nbreaking=false\nfeature=false\nbug=false\n";
    let mut state = ChangelogState {
        smithy_doc: b"untouched generator changelog\n".to_vec(),
        sdk_doc: Vec::new(),
        pending: pending.to_vec(),
    };
    let r = update_changelogs(&mut state, b"9.9.9", b"1.2.3", b"2025-01-01");
    assert!(r.is_ok());
    assert_eq!(state.smithy_doc, b"untouched generator changelog\n".to_vec());
    assert!(state.sdk_doc.starts_with(b"## 1.2.3 (2025-01-01)\n"));
    assert_eq!(count_occurrences(&state.sdk_doc, b"### Other changes"), 1);
}

#[test]
fn second_publish_is_a_no_op() {
    let pending = b"target=smithy\nmessage=one change\nauthor=a\nrefs=\nbreaking=false\nfeature=false\nbug=true\n";
    let mut state = ChangelogState {
        smithy_doc: b"old\n".to_vec(),
        sdk_doc: b"old sdk\n".to_vec(),
        pending: pending.to_vec(),
    };
    assert!(update_changelogs(&mut state, b"1.0.0", b"2.0.0", b"2024-03-03").is_ok());
    let smithy_after_first = state.smithy_doc.clone();
    let sdk_after_first = state.sdk_doc.clone();
    // The queue is now empty, so publishing again changes nothing.
    assert!(update_changelogs(&mut state, b"1.0.1", b"2.0.1", b"2024-03-04").is_ok());
    assert_eq!(state.smithy_doc, smithy_after_first);
    assert_eq!(state.sdk_doc, sdk_after_first);
    assert!(state.pending.is_empty());
}
