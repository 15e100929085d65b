use graph_specs::markdown::grounding::{read, DialectRead, ParsedSpec, Site};
use graph_specs::model::{Marker, Polarity, ReaderError};

/// The dialect parse of a document whose ATX `##`/`###` headings outside
/// fences are the given sites, none of them grounded.
fn sites_only(sites: &[(&str, usize, usize)]) -> ParsedSpec {
    ParsedSpec {
        sites: sites.iter().map(|(n, line, level)| Site { name: (*n).to_owned(), line: *line, level: *level }).collect(),
        concepts: vec![],
        unclosed_fences: vec![],
        malformed_headings: vec![],
        orphans: vec![],
        malformed_frontmatter: vec![],
        malformed: vec![],
    }
}

fn read_str(md: &str, parsed: &ParsedSpec) -> Result<DialectRead, ReaderError> {
    read("specs/concepts/reading.md", md, parsed)
}

fn headings(md: &str, sites: &[(&str, usize, usize)]) -> Vec<(String, Marker, Polarity)> {
    read_str(md, &sites_only(sites))
        .expect("well-formed dialect")
        .concepts()
        .into_iter()
        .map(|h| (h.name.clone(), h.marker, h.polarity))
        .collect()
}

fn ladder_of(md: &str, sites: &[(&str, usize, usize)]) -> Vec<(usize, String)> {
    read_str(md, &sites_only(sites))
        .expect("well-formed dialect")
        .ladder
        .into_iter()
        .map(|h| (h.level, h.name))
        .collect()
}

#[test]
fn a_marker_value_is_case_exact() {
    let exact = "# reading\n\n## Unit\n\n- status: retired\n";
    assert_eq!(headings(exact, &[("Unit", 3, 2)])[0].1, Marker::Retired);
    let shouted = "# reading\n\n## Unit\n\n- status: Retired\n";
    assert_eq!(headings(shouted, &[("Unit", 3, 2)])[0].1, Marker::Unmarked);
}

#[test]
fn a_state_marker_holds_on_a_heading_the_reader_leaves_unplaced() {
    for (md, line, expected) in [
        ("## Digest\n\n- status: draft\n", 1, Marker::Draft),
        ("## Digest\n\n- status: retired\n", 1, Marker::Retired),
        ("---\nstatus: draft\n---\n\n## Digest\n\nProse.\n", 5, Marker::Draft),
        ("## Digest\n\nProse.\n", 1, Marker::Unmarked),
        ("## Digest\n\n- status: Draft\n", 1, Marker::Unmarked),
    ] {
        assert_eq!(
            headings(md, &[("Digest", line, 2)])[0].1,
            expected,
            "no `#` rung suspends no declaration: {md:?}"
        );
    }
}

#[test]
fn an_unplaced_marker_reads_the_same_as_a_placed_one() {
    for body in ["## Digest\n\n- status: draft\n", "## Digest\n\n- status: retired\n", "## Digest\n\nProse.\n"] {
        let placed = format!("# core\n\n{body}");
        assert_eq!(
            headings(&placed, &[("Digest", 3, 2)])[0].1,
            headings(body, &[("Digest", 1, 2)])[0].1,
            "the `#` rung moves no marker: {body:?}"
        );
    }
}

#[test]
fn a_retired_bullet_outranks_a_whole_file_draft_on_an_unplaced_heading() {
    let md = "---\nstatus: draft\n---\n\n## Digest\n\n- status: retired\n";
    assert_eq!(headings(md, &[("Digest", 5, 2)])[0].1, Marker::Retired);
}

#[test]
fn an_ungrounded_heading_still_reports_as_a_site() {
    let md = "# reading\n\n## Unit\n\nProse.\n\n### Inner\n";
    let names: Vec<_> = headings(md, &[("Unit", 3, 2), ("Inner", 7, 3)]).into_iter().map(|h| h.0).collect();
    assert_eq!(names, vec!["Unit".to_owned(), "Inner".to_owned()]);
}

#[test]
fn a_setext_heading_opens_no_rung() {
    assert_eq!(
        ladder_of("# reading\n\nUnit\n----\n\nProse.\n", &[]),
        vec![(1, "reading".to_owned())],
        "the ladder carries no setext rung"
    );
}

#[test]
fn an_indented_hash_run_opens_no_rung() {
    assert_eq!(ladder_of("# reading\n\n  ## Unit\n", &[]), vec![(1, "reading".to_owned())]);
}

#[test]
fn a_closing_hash_run_and_emphasis_stay_in_the_name() {
    assert_eq!(
        ladder_of("# reading\n\n## Unit ##\n\n## *Other*\n", &[("Unit ##", 3, 2), ("*Other*", 5, 2)]),
        vec![(1, "reading".to_owned()), (2, "Unit ##".to_owned()), (2, "*Other*".to_owned())],
        "the name is the reader's, verbatim"
    );
}

#[test]
fn a_hash_run_inside_a_fence_opens_no_rung() {
    assert_eq!(
        ladder_of("# reading\n\n```markdown\n## Unit\n#### Rung\n```\n", &[]),
        vec![(1, "reading".to_owned())]
    );
}

#[test]
fn the_context_and_callout_rungs_stand_beside_the_concepts() {
    assert_eq!(
        ladder_of(
            "# reading\n\n## Unit\n\n#### Distinct from\n\n### Inner\n",
            &[("Unit", 3, 2), ("Inner", 7, 3)]
        ),
        vec![
            (1, "reading".to_owned()),
            (2, "Unit".to_owned()),
            (4, "Distinct from".to_owned()),
            (3, "Inner".to_owned())
        ]
    );
}

#[test]
fn a_callout_rung_closes_the_concepts_extent() {
    let read = read_str(
        "# reading\n\n## Unit\n\n#### Distinct from\n\n- depends on: Nowhere\n",
        &sites_only(&[("Unit", 3, 2)]),
    )
    .expect("well-formed dialect");
    let unit = read.concepts()[0].clone();
    assert_eq!(read.extent(&unit), (3, 5), "the extent stops at the `####` rung");
}

#[test]
fn an_unclosed_fence_refuses_the_run() {
    let mut parsed = sites_only(&[("Unit", 3, 2)]);
    parsed.unclosed_fences = vec![5];
    let err = read_str("# reading\n\n## Unit\n\n```rust\npub struct Unit;\n", &parsed)
        .err()
        .expect("an unclosed fence is a run-level finding");
    assert!(
        matches!(&err, ReaderError::ParseFailed { message, line: 5, .. } if message.contains("unclosed code fence")),
        "got {err:?}"
    );
}

#[test]
fn a_homeless_vocabulary_callout_carries_no_verdict_row_and_does_not_refuse() {
    let read = read_str("#### Also reached for\n\n- widget\n", &sites_only(&[])).expect("no refusal");
    assert_eq!(read.concepts().len(), 0, "it opens no concept either");
}

#[test]
fn an_empty_concept_name_carries_no_verdict_row_and_does_not_refuse() {
    let read = read_str("# reading\n\n## \n\nProse.\n", &sites_only(&[("##", 3, 2)])).expect("no refusal");
    assert_eq!(
        read.concepts().into_iter().map(|h| h.name.clone()).collect::<Vec<_>>(),
        vec!["##".to_owned()],
        "the site stands under the reader's own name for it"
    );
}
