//! Conflict editor parsing.

use terra_git::conflict::parse;

#[test]
fn parses_standard_conflict() {
    let c = "before\n<<<<<<< HEAD\nmine\n=======\ntheirs\n>>>>>>> branch\nafter\n";
    let f = parse("a.txt", c);
    assert!(f.has_conflicts);
    assert_eq!(f.eol, "lf");
    assert_eq!(f.segments.len(), 3);
    assert_eq!(f.segments[0].kind, "context");
    assert_eq!(f.segments[0].lines, vec!["before"]);
    assert_eq!(f.segments[1].kind, "conflict");
    assert_eq!(f.segments[1].ours, vec!["mine"]);
    assert_eq!(f.segments[1].theirs, vec!["theirs"]);
    assert_eq!(f.segments[1].base, None);
    assert_eq!(f.segments[2].lines, vec!["after"]);
}

#[test]
fn parses_diff3_with_base_and_crlf() {
    let c =
        "<<<<<<< HEAD\r\nmine\r\n||||||| base\r\norig\r\n=======\r\ntheirs\r\n>>>>>>> b\r\n";
    let f = parse("a.txt", c);
    assert_eq!(f.eol, "crlf");
    assert_eq!(f.segments.len(), 1);
    assert_eq!(f.segments[0].ours, vec!["mine"]);
    assert_eq!(
        f.segments[0].base.as_deref(),
        Some(&["orig".to_string()][..])
    );
    assert_eq!(f.segments[0].theirs, vec!["theirs"]);
}

#[test]
fn no_markers_no_conflicts() {
    let f = parse("a.txt", "just\ntext\n");
    assert!(!f.has_conflicts);
    assert_eq!(f.segments.len(), 1);
    assert_eq!(f.segments[0].lines, vec!["just", "text"]);
}

#[test]
fn setext_underline_is_not_a_separator() {
    // A Markdown/RST underline `========` (8 characters) inside the ours
    // block is content — only the exact `=======` separates ours from theirs.
    let c = "<<<<<<< HEAD\nTitle\n========\n=======\ntheirs\n>>>>>>> b\n";
    let f = parse("a.md", c);
    assert_eq!(f.segments.len(), 1);
    assert_eq!(f.segments[0].ours, vec!["Title", "========"]);
    assert_eq!(f.segments[0].theirs, vec!["theirs"]);
}

#[test]
fn incomplete_block_stays_content() {
    // A line of marker characters without a matching separator AND closing
    // marker is text — exactly the case the previously hard-wired 7-character
    // comparison was meant to catch.
    let c = "<<<<<<<<\nTitle\n========\n";
    let f = parse("a.txt", c);
    assert!(!f.has_conflicts);
    assert_eq!(f.segments.len(), 1);
    assert_eq!(f.segments[0].lines, vec!["<<<<<<<<", "Title", "========"]);
}

#[test]
fn complete_block_counts_at_eight_characters_too() {
    // DELIBERATE change against the earlier version: if the block closes
    // cleanly at the same length it is a conflict — because that is exactly
    // how git writes it with conflict-marker-size=8. The earlier version
    // assumed content here and was blind for EVERY differing marker length;
    // that was the more expensive mistake.
    let c = "<<<<<<<<\nmine\n========\ntheirs\n>>>>>>>>\n";
    let f = parse("a.txt", c);
    assert!(f.has_conflicts);
    assert_eq!(f.segments[0].ours, vec!["mine"]);
    assert_eq!(f.segments[0].theirs, vec!["theirs"]);
}

#[test]
fn separator_with_a_suffix_is_content() {
    // git writes the separator without a label — `======= x` is content;
    // so is `|||||||x` (8th character is not a space).
    let c = "<<<<<<< HEAD\n======= x\n|||||||x\n=======\ntheirs\n>>>>>>> b\n";
    let f = parse("a.txt", c);
    assert_eq!(f.segments.len(), 1);
    assert_eq!(f.segments[0].ours, vec!["======= x", "|||||||x"]);
    assert_eq!(f.segments[0].base, None);
    assert_eq!(f.segments[0].theirs, vec!["theirs"]);
}

#[test]
fn larger_marker_length_is_detected() {
    // .gitattributes `a.md conflict-marker-size=12` -> git writes 12-character
    // markers (verified empirically against git). With a fixed 7 the file
    // stayed marker-less and the workshop reported it as probably already
    // resolved.
    let c = "<<<<<<<<<<<< HEAD\nmine\n============\ntheirs\n>>>>>>>>>>>> b\n";
    let f = parse("a.md", c);
    assert!(f.has_conflicts);
    assert_eq!(f.segments.len(), 1);
    assert_eq!(f.segments[0].ours, vec!["mine"]);
    assert_eq!(f.segments[0].theirs, vec!["theirs"]);
}

#[test]
fn marker_lengths_below_seven_stay_content() {
    // git also allows 3 via conflict-marker-size (measured). We deliberately
    // leave that alone: below 7, `===` would become a separator in any file
    // whatsoever. The case is so rare that the damage would outweigh the
    // benefit.
    let c = "<<< HEAD\nmine\n===\ntheirs\n>>> b\n";
    let f = parse("a.txt", c);
    assert!(!f.has_conflicts);
}

#[test]
fn only_the_opening_lines_length_counts() {
    // The opening line prescribes 12 — so the 7-character line is content.
    // The setext guard works in BOTH directions.
    let c = "<<<<<<<<<<<< HEAD\nTitle\n=======\n============\ntheirs\n>>>>>>>>>>>> b\n";
    let f = parse("a.md", c);
    assert_eq!(f.segments.len(), 1);
    assert_eq!(f.segments[0].ours, vec!["Title", "======="]);
    assert_eq!(f.segments[0].theirs, vec!["theirs"]);
}

#[test]
fn diff3_with_large_marker_length() {
    let c = "<<<<<<<<<<<< HEAD\nmine\n|||||||||||| base\norig\n============\ntheirs\n>>>>>>>>>>>> b\n";
    let f = parse("a.md", c);
    assert_eq!(f.segments.len(), 1);
    assert_eq!(f.segments[0].ours, vec!["mine"]);
    assert_eq!(
        f.segments[0].base.as_deref(),
        Some(&["orig".to_string()][..])
    );
    assert_eq!(f.segments[0].theirs, vec!["theirs"]);
}

#[test]
fn seven_marker_despite_differing_attribute() {
    // Regression B1: if a branch BRINGS `.gitattributes` with
    // conflict-marker-size=12 along, git still merged the file with 7 — the
    // attribute did not apply at merge time. Whoever reads the length from
    // the attribute is blind here. The file knows better: the opening line
    // prescribes the length.
    let c = "<<<<<<< HEAD\nfrom main\n=======\nfrom side\n>>>>>>> side\n";
    let f = parse("docs/a.md", c);
    assert!(f.has_conflicts);
    assert_eq!(f.segments[0].ours, vec!["from main"]);
    assert_eq!(f.segments[0].theirs, vec!["from side"]);
}

#[test]
fn mixed_document_stays_complete() {
    // Roundtrip view: context before/after the conflict including a
    // `========` line outside of it stays fully preserved as context.
    let c = "head\n<<<<<<< HEAD\nTitle\n========\n=======\ntheirs\n>>>>>>> b\nmiddle\n========\nfoot\n";
    let f = parse("a.md", c);
    assert!(f.has_conflicts);
    assert_eq!(f.segments.len(), 3);
    assert_eq!(f.segments[0].lines, vec!["head"]);
    assert_eq!(f.segments[1].ours, vec!["Title", "========"]);
    assert_eq!(f.segments[1].theirs, vec!["theirs"]);
    assert_eq!(f.segments[2].lines, vec!["middle", "========", "foot"]);
}

#[test]
fn empty_content_has_no_segments() {
    let f = parse("a.txt", "");
    assert!(!f.has_conflicts);
    assert_eq!(f.eol, "lf");
    assert!(f.segments.is_empty());
    assert_eq!(f.file, "a.txt");
}

#[test]
fn crlf_majority_decides_the_line_ending() {
    // Two of three line feeds carry a carriage return.
    let f = parse("a.txt", "a\r\nb\r\nc\n");
    assert_eq!(f.eol, "crlf");
    assert_eq!(f.segments[0].lines, vec!["a", "b", "c"]);
    // One of three does not reach half.
    let g = parse("a.txt", "a\r\nb\nc\n");
    assert_eq!(g.eol, "lf");
}

#[test]
fn two_conflicts_back_to_back() {
    let c = "<<<<<<< HEAD\na\n=======\nb\n>>>>>>> x\n<<<<<<< HEAD\nc\n=======\nd\n>>>>>>> x\n";
    let f = parse("a.txt", c);
    assert!(f.has_conflicts);
    assert_eq!(f.segments.len(), 2);
    assert_eq!(f.segments[0].ours, vec!["a"]);
    assert_eq!(f.segments[1].theirs, vec!["d"]);
    assert!(f.segments[0].lines.is_empty());
}

#[test]
fn missing_closing_marker_stays_content() {
    let c = "<<<<<<< HEAD\na\n=======\nb\n";
    let f = parse("a.txt", c);
    assert!(!f.has_conflicts);
    assert_eq!(f.segments.len(), 1);
    assert_eq!(f.segments[0].kind, "context");
    assert_eq!(f.segments[0].lines.len(), 4);
}

#[test]
fn every_line_lands_in_a_segment() {
    let c = "head\n<<<<<<< HEAD\na\nb\n||||||| base\no\n=======\nt\n>>>>>>> x\nmid\n<<<<<<< HEAD\n=======\nu\n>>>>>>> y\n";
    let f = parse("m.txt", c);
    let mut total = 0usize;
    for s in &f.segments {
        total += s.lines.len() + s.ours.len() + s.theirs.len();
        if let Some(b) = &s.base {
            total += b.len() + 1;
        }
        if s.kind == "conflict" {
            total += 3;
        }
    }
    assert_eq!(total, c.lines().count());
    assert_eq!(f.segments.len(), 4);
}
