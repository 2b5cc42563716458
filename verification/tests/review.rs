//! Reviews: which rows are shown, and what is made of a review file.

use agentium::review::document::{
    check_document, estimate_block_height, finding_body, is_review_json, parse_verdict,
    plan_paths, review_item, unassigned_group, unique_paths, verdict_label, ActiveRepo,
    CodeReview, Finding, PathStatus, Reading, ReviewDocument, ReviewError, ReviewGroup, Verdict,
};
use agentium::review::ranges::{
    raw_ranges, reading_ranges, OverrideHunk, PathRanges, ReviewHunk, ShowBlock,
};
use agentium::review::view::{
    excerpts, finding_row, review_blocks, should_insert_blocks, tab_content_text, CommentTarget,
    LoadedPath, ReviewView,
};

fn hunk(path: &str, new_start: u32, new_lines: u32) -> ReviewHunk {
    ReviewHunk {
        path: path.to_string(),
        new_start,
        new_lines,
    }
}

fn rows(ranges: &PathRanges, path: &str) -> Vec<(u32, u32)> {
    ranges
        .iter()
        .find(|(p, _)| p == path)
        .map(|(_, ranges)| {
            ranges
                .iter()
                .map(|range| (range.start, range.end))
                .collect()
        })
        .unwrap_or_default()
}

fn finding(file: &str, line: u32, summary: &str) -> Finding {
    Finding {
        file: file.to_string(),
        line,
        summary: summary.to_string(),
        failure_scenario: None,
        verdict: None,
        category: None,
    }
}

fn envelope() -> ReviewDocument {
    ReviewDocument {
        base: "8360ba1f".to_string(),
        target: "e083707f".to_string(),
        groups: vec![
            ReviewGroup {
                title: "Store".to_string(),
                summary: Some("S".to_string()),
                phase: Some("foundation".to_string()),
                hunks: vec![hunk("a.ts", 1, 211)],
                review_focus: vec!["a".to_string(), "b".to_string()],
                findings: vec![
                    Finding {
                        failure_scenario: Some("lost".to_string()),
                        ..finding("a.ts", 41, "dup")
                    },
                    Finding {
                        verdict: Some("CONFIRMED".to_string()),
                        category: Some("correctness".to_string()),
                        ..finding("a.ts", 118, "race")
                    },
                ],
                reading: Some(Reading {
                    summary: Some("R".to_string()),
                    override_hunks: vec![OverrideHunk {
                        path: "a.ts".to_string(),
                        new_start: 1,
                        new_lines: 211,
                        hide: false,
                        show: vec![
                            ShowBlock {
                                lines: [3, 39],
                                omit: vec![[31, 38]],
                            },
                            ShowBlock {
                                lines: [41, 87],
                                omit: Vec::new(),
                            },
                        ],
                    }],
                }),
            },
            ReviewGroup {
                title: "Flag".to_string(),
                summary: None,
                phase: Some("integration".to_string()),
                hunks: vec![hunk("b.ts", 59, 1)],
                review_focus: Vec::new(),
                findings: Vec::new(),
                reading: None,
            },
        ],
        code_review: Some(CodeReview {
            level: Some("high".to_string()),
            unassigned: vec![finding("z.ts", 5, "orphan")],
        }),
    }
}

#[test]
fn finding_body_appends_scenario() {
    let finding = Finding {
        file: "a.ts".into(),
        line: 1,
        summary: "s".into(),
        failure_scenario: Some("f".into()),
        verdict: None,
        category: None,
    };
    assert_eq!(finding_body(&finding), "s\n\n**Failure scenario:** f");
    let bare = Finding {
        failure_scenario: Some("  ".into()),
        ..finding
    };
    assert_eq!(finding_body(&bare), "s");
}

#[test]
fn reading_ranges_split_on_omit() {
    let document = envelope();
    let group = &document.groups[0];
    let overrides = &group.reading.as_ref().expect("reading").override_hunks;
    let ranges = reading_ranges(&group.hunks, overrides);
    assert_eq!(rows(&ranges, "a.ts"), vec![(2, 29), (38, 38), (40, 86)]);
}

#[test]
fn reading_ranges_hide_and_default_window() {
    let hunks = vec![
        hunk("b.ts", 59, 1),
        hunk("c.ts", 119, 12),
        hunk("d.ts", 10, 0),
    ];
    let overrides = vec![OverrideHunk {
        path: "b.ts".into(),
        new_start: 59,
        new_lines: 1,
        hide: true,
        show: Vec::new(),
    }];
    let ranges = reading_ranges(&hunks, &overrides);
    assert!(rows(&ranges, "b.ts").is_empty());
    assert_eq!(rows(&ranges, "c.ts"), vec![(115, 133)]);
    assert_eq!(rows(&ranges, "d.ts"), vec![(6, 12)]);
}

#[test]
fn reading_ranges_multiple_omits() {
    let hunks = vec![hunk("a.ts", 1, 211)];
    let overrides = vec![OverrideHunk {
        path: "a.ts".into(),
        new_start: 1,
        new_lines: 211,
        hide: false,
        show: vec![ShowBlock {
            lines: [41, 87],
            omit: vec![[70, 75], [52, 56]],
        }],
    }];
    let ranges = reading_ranges(&hunks, &overrides);
    assert_eq!(rows(&ranges, "a.ts"), vec![(40, 50), (56, 68), (75, 86)]);
}

#[test]
fn raw_ranges_keep_hunk_rows() {
    let ranges = raw_ranges(&[hunk("a.ts", 119, 12), hunk("a.ts", 10, 0)]);
    assert_eq!(rows(&ranges, "a.ts"), vec![(118, 130), (9, 9)]);
}

#[test]
fn a_block_shows_what_is_not_left_out() {
    let omit = vec![[12, 14], [3, 5], [13, 20], [30, 28]];
    let overrides = vec![OverrideHunk {
        path: "a".into(),
        new_start: 1,
        new_lines: 40,
        hide: false,
        show: vec![ShowBlock {
            lines: [2, 33],
            omit: omit.clone(),
        }],
    }];
    let ranges = reading_ranges(&[hunk("a", 1, 40)], &overrides);
    for line in 1..50u32 {
        let shown = rows(&ranges, "a")
            .iter()
            .any(|(start, end)| start + 1 <= line && line <= end + 1);
        let wanted = (2..=33).contains(&line)
            && !omit.iter().any(|[first, last]| *first <= line && line <= *last);
        assert_eq!(shown, wanted, "{line}");
    }
}

#[test]
fn files_keep_the_order_in_which_they_appear() {
    let ranges = raw_ranges(&[hunk("b", 1, 1), hunk("a", 1, 1), hunk("b", 5, 1)]);
    let paths: Vec<_> = ranges.iter().map(|(path, _)| path.as_str()).collect();
    assert_eq!(paths, vec!["b", "a"]);
    assert_eq!(rows(&ranges, "b"), vec![(0, 1), (4, 5)]);
}

#[test]
fn reviews_that_cannot_be_shown() {
    let document = envelope();
    let repo = |head: Option<&str>| {
        Some(ActiveRepo {
            head_sha: head.map(str::to_string),
        })
    };
    assert!(check_document(&document, &repo(Some("e083707f"))).is_ok());
    assert_eq!(
        check_document(&document, &None),
        Err(ReviewError::NoRepository)
    );
    assert_eq!(
        check_document(&document, &repo(None)),
        Err(ReviewError::NoHeadCommit)
    );
    let error = check_document(&document, &repo(Some("abc"))).unwrap_err();
    assert_eq!(
        error.message("x.review.json"),
        "target e083707f does not match HEAD abc; checkout target first"
    );
    let empty = ReviewDocument {
        groups: Vec::new(),
        ..document
    };
    let error = check_document(&empty, &None).unwrap_err();
    assert_eq!(
        error.message("x.review.json"),
        "review.json x.review.json has no groups"
    );
}

#[test]
fn files_of_a_review() {
    let mut document = envelope();
    document.groups[1].hunks.push(hunk("a.ts", 300, 1));
    assert_eq!(unique_paths(&document), vec!["a.ts", "b.ts", "z.ts"]);
    let plans = plan_paths(&vec![
        ("a.ts".to_string(), PathStatus::Modified("oid".to_string())),
        ("b.ts".to_string(), PathStatus::Deleted),
        ("c.ts".to_string(), PathStatus::NoOldVersion),
        ("d.ts".to_string(), PathStatus::NotInRepo),
        ("../e.ts".to_string(), PathStatus::Invalid),
    ]);
    let planned: Vec<_> = plans
        .iter()
        .map(|plan| (plan.path.as_str(), plan.old_oid.as_deref()))
        .collect();
    assert_eq!(planned, vec![("a.ts", Some("oid")), ("c.ts", None)]);
}

#[test]
fn groups_are_numbered_and_unassigned_findings_get_their_own() {
    let item = review_item(envelope());
    let titles: Vec<_> = item
        .groups
        .iter()
        .map(|group| (group.tab_label.as_str(), group.title.as_str()))
        .collect();
    assert_eq!(
        titles,
        vec![
            ("1", "1. [foundation] Store"),
            ("2", "2. [integration] Flag"),
            ("U", "Unassigned findings"),
        ]
    );
    assert_eq!(item.groups[2].hunks, vec![hunk("z.ts", 2, 7)]);
    assert_eq!(item.review_level.as_deref(), Some("high"));
    let first = unassigned_group(vec![finding("z.ts", 2, "near the top")]);
    assert_eq!(first.hunks, vec![hunk("z.ts", 1, 7)]);
}

#[test]
fn view_switches_groups_and_plans() {
    let mut view = ReviewView::for_project_item(review_item(envelope()));
    let (ranges, context) = view.ranges(5);
    assert_eq!(rows(&ranges, "a.ts"), vec![(0, 211)]);
    assert_eq!(context, 5);
    assert!(view.toggle_reading());
    let (ranges, context) = view.ranges(5);
    assert_eq!(rows(&ranges, "a.ts"), vec![(2, 29), (38, 38), (40, 86)]);
    assert_eq!(context, 0);
    assert_eq!(view.group_header().summary.as_deref(), Some("R"));
    assert!(view.toggle_reading());
    assert_eq!(view.group_header().summary.as_deref(), Some("S"));
    assert!(!view.set_active_group(0));
    assert!(!view.set_active_group(3));
    assert!(view.set_active_group(1));
    assert!(!view.toggle_reading());
    let strip = view.tab_strip();
    assert_eq!(strip.labels, vec!["1", "2", "U"]);
    assert_eq!(strip.active, 1);
    assert_eq!(strip.level.as_deref(), Some("review: high"));
    assert_eq!(strip.tooltip, "This group has no reading plan");
}

#[test]
fn comments_are_copied_and_revealed() {
    let mut view = ReviewView::for_project_item(review_item(envelope()));
    let loaded = vec![LoadedPath {
        path: "a.ts".to_string(),
        max_row: 100,
    }];
    assert_eq!(view.copy_comment(), None);
    view.deploy_comment_menu(CommentTarget {
        path: "a.ts".to_string(),
        line: 41,
        body: "dup".to_string(),
    });
    assert_eq!(view.copy_comment().as_deref(), Some("At a.ts: 41\ndup"));
    assert_eq!(view.reveal_comment(&loaded), Some((0, 40)));
    assert_eq!(view.reveal_comment(&Vec::new()), None);
    view.dismiss_comment_menu();
    assert_eq!(view.copy_comment(), None);
}

#[test]
fn only_loaded_files_and_rows_that_are_shown() {
    let loaded = vec![LoadedPath {
        path: "a.ts".to_string(),
        max_row: 50,
    }];
    let ranges = raw_ranges(&[hunk("x.ts", 1, 1), hunk("a.ts", 40, 100)]);
    let shown = excerpts(&ranges, &loaded);
    assert_eq!(shown.len(), 1);
    assert_eq!(shown[0].sort_prefix, 1);
    assert_eq!((shown[0].ranges[0].start, shown[0].ranges[0].end), (39, 50));

    let findings = vec![
        finding("a.ts", 41, "shown"),
        finding("a.ts", 0, "no line"),
        finding("a.ts", 52, "past the end"),
        finding("x.ts", 1, "not loaded"),
        finding("a.ts", 1, "in no rows"),
    ];
    assert_eq!(finding_row(&findings[0], &loaded), Some(40));
    for finding in &findings[1..4] {
        assert_eq!(finding_row(finding, &loaded), None);
    }
    let blocks = review_blocks(&findings, &loaded, &vec![true, true, true, true, false]);
    assert_eq!(blocks.len(), 1);
    assert_eq!(blocks[0].row, 40);
    assert_eq!(blocks[0].height, 3);
    assert_eq!(blocks[0].verdict, Verdict::Unlabeled);
    assert_eq!(blocks[0].target.body, "shown");
    assert!(should_insert_blocks(true, false, false));
    assert!(should_insert_blocks(false, false, true));
    assert!(!should_insert_blocks(false, false, false));
    assert!(!should_insert_blocks(true, true, true));
}

#[test]
fn heights_count_wrapped_rows() {
    assert_eq!(estimate_block_height(""), 3);
    assert_eq!(estimate_block_height("one"), 3);
    assert_eq!(estimate_block_height("one\ntwo"), 4);
    assert_eq!(estimate_block_height(&"x".repeat(110)), 4);
    assert_eq!(estimate_block_height(&"x\n".repeat(100)), 24);
}

#[test]
fn verdicts_and_names() {
    assert_eq!(parse_verdict(&Some("CONFIRMED".into())), Verdict::Confirmed);
    assert_eq!(parse_verdict(&Some("PLAUSIBLE".into())), Verdict::Plausible);
    assert_eq!(parse_verdict(&Some("confirmed".into())), Verdict::Unlabeled);
    assert_eq!(parse_verdict(&None), Verdict::Unlabeled);
    assert_eq!(verdict_label(Verdict::Unlabeled), "FINDING");
    assert!(is_review_json(Some("x.review.json")));
    assert!(!is_review_json(Some("review.json")));
    assert!(!is_review_json(None));
    assert_eq!(tab_content_text(None), "review");
}
