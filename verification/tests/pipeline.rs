//! Whole-pipeline behavior: deduplication, rendering, and the round trip
//! of the rendered blocklist through the extractor.

use baker::blocklist::{process_content, render_blocklist, DomainSet};

fn domains_of(set: &DomainSet) -> Vec<String> {
    let mut out = Vec::new();
    let mut i = 0;
    while i < set.len() {
        out.push(set.domain_at(i).clone());
        i += 1;
    }
    out
}

#[test]
fn render_format_single_domain() {
    let mut set = DomainSet::new();
    process_content("example.com\n", &mut set);
    assert_eq!(render_blocklist(&set), "0.0.0.0 example.com\n");
}

#[test]
fn duplicates_collapse_across_sources() {
    let mut set = DomainSet::new();
    process_content("ads.example.com\nother.example.com\n", &mut set);
    process_content("0.0.0.0 ads.example.com\n||other.example.com^\n", &mut set);
    assert_eq!(set.len(), 2);
    let ds = domains_of(&set);
    assert!(ds.contains(&String::from("ads.example.com")));
    assert!(ds.contains(&String::from("other.example.com")));
}

#[test]
fn output_has_no_duplicate_lines() {
    let mut set = DomainSet::new();
    process_content(
        "a.example\nb.example\n0.0.0.0 a.example\nhttps://b.example/path\n",
        &mut set,
    );
    let out = render_blocklist(&set);
    let lines: Vec<&str> = out.lines().collect();
    for i in 0..lines.len() {
        for j in (i + 1)..lines.len() {
            assert_ne!(lines[i], lines[j]);
        }
    }
    assert_eq!(lines.len(), 2);
}

#[test]
fn rendered_output_round_trips() {
    let mut set = DomainSet::new();
    process_content(
        "# a mixed source\nexample.com\n0.0.0.0 ads.example.com\n||tracker.example.net^\nhttps://sub.example.org/path?x=1\nbad line here\n10.0.0.5:8080\n",
        &mut set,
    );
    let out = render_blocklist(&set);
    let mut again = DomainSet::new();
    process_content(&out, &mut again);
    assert_eq!(domains_of(&set), domains_of(&again));
}

#[test]
fn failed_sources_contribute_nothing() {
    // A failing fetch hands the pipeline no content at all, so only the
    // sources that succeeded shape the final count.
    let fetched: [Result<&str, &str>; 3] = [
        Ok("one.example\n"),
        Err("connection refused"),
        Ok("two.example\n"),
    ];
    let mut set = DomainSet::new();
    for outcome in fetched {
        if let Ok(content) = outcome {
            process_content(content, &mut set);
        }
    }
    assert_eq!(set.len(), 2);
}

#[test]
fn empty_set_renders_empty_file() {
    let set = DomainSet::new();
    assert_eq!(render_blocklist(&set), "");
}

#[test]
fn insert_is_idempotent() {
    let mut set = DomainSet::new();
    set.insert(String::from("example.com"));
    set.insert(String::from("example.com"));
    assert_eq!(set.len(), 1);
    assert!(set.has_domain("example.com"));
    assert!(!set.has_domain("other.example"));
}
