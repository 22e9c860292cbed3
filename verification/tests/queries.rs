use hackstore::filter::Filter;
use hackstore::hack::{Hack, HackData};
use hackstore::query::{Query, QueryFiltered, QueryIssue};
use hackstore::storage::Storage;
use hackstore::taginfo::{SingleTagInfo, TagInfo};
use hackstore::tags::Tag;

fn tag(s: &str) -> Tag {
    Tag(s.to_owned())
}

fn hack(tags: &[&str]) -> Hack {
    Hack {
        data: HackData {
            name: "h".to_owned(),
            authors: Vec::new(),
            description: None,
            tags: tags.iter().map(|t| tag(t)).collect(),
            source: None,
            skytemple_db_id: None,
            screenshots: Vec::new(),
            links: Vec::new(),
            files: Vec::new(),
        },
        implied_tags: Vec::new(),
        folder: String::new(),
    }
}

fn sample_storage() -> Storage {
    let mut s = Storage::new();
    s.add_hack("alpha".to_owned(), hack(&["rpg", "long"]));
    s.add_hack("beta".to_owned(), hack(&["rpg", "short"]));
    s.add_hack("gamma".to_owned(), hack(&["puzzle"]));
    s
}

fn sorted(mut v: Vec<String>) -> Vec<String> {
    v.sort();
    v
}

#[test]
fn storage_registers_hacks_and_tags() {
    let s = sample_storage();
    assert!(s.get_hack("alpha").is_some());
    assert!(s.get_hack("delta").is_none());
    let rpg = s.tags.get_hack_for_tag(&tag("rpg")).unwrap();
    assert_eq!(rpg, &vec!["alpha".to_string(), "beta".to_string()]);
}

#[test]
fn storage_add_replaces_same_slug() {
    let mut s = sample_storage();
    s.add_hack("alpha".to_owned(), hack(&["puzzle"]));
    assert_eq!(s.hacks.len(), 3);
    let puzzle = s.tags.get_hack_for_tag(&tag("puzzle")).unwrap();
    assert!(puzzle.contains(&"alpha".to_string()));
}

#[test]
fn tag_query_matches_any_of_its_tags() {
    let s = sample_storage();
    let q = Query::AtLeastOneOfTag(vec![tag("rpg"), tag("puzzle")]);
    let (slugs, issues) = q.get_list_of_matching_hack(&s);
    assert_eq!(
        sorted(slugs),
        vec!["alpha".to_string(), "beta".to_string(), "gamma".to_string()]
    );
    assert!(issues.is_empty());
}

#[test]
fn unknown_tags_are_reported_in_order() {
    let s = sample_storage();
    let q = Query::AtLeastOneOfTag(vec![tag("ghost"), tag("rpg"), tag("phantom")]);
    let (slugs, issues) = q.get_list_of_matching_hack(&s);
    assert_eq!(sorted(slugs), vec!["alpha".to_string(), "beta".to_string()]);
    assert_eq!(issues.len(), 2);
    match &issues[0] {
        QueryIssue::UnknownTag(t) => assert_eq!(t.0, "ghost"),
        _ => panic!("expected an unknown-tag issue"),
    }
    match &issues[1] {
        QueryIssue::UnknownTag(t) => assert_eq!(t.0, "phantom"),
        _ => panic!("expected an unknown-tag issue"),
    }
}

#[test]
fn all_difference_intersection_and_or() {
    let s = sample_storage();
    let (slugs, _) = Query::All.get_list_of_matching_hack(&s);
    assert_eq!(slugs.len(), 3);

    let diff = Query::Difference(
        Box::new(Query::All),
        Box::new(Query::AtLeastOneOfTag(vec![tag("rpg")])),
    );
    let (slugs, _) = diff.get_list_of_matching_hack(&s);
    assert_eq!(slugs, vec!["gamma".to_string()]);

    let inter = Query::Intersection(
        Box::new(Query::AtLeastOneOfTag(vec![tag("rpg")])),
        Box::new(Query::AtLeastOneOfTag(vec![tag("short")])),
    );
    let (slugs, _) = inter.get_list_of_matching_hack(&s);
    assert_eq!(slugs, vec!["beta".to_string()]);

    let or = Query::Or(vec![
        Query::AtLeastOneOfTag(vec![tag("short")]),
        Query::AtLeastOneOfTag(vec![tag("puzzle")]),
    ]);
    let (slugs, _) = or.get_list_of_matching_hack(&s);
    assert_eq!(sorted(slugs), vec!["beta".to_string(), "gamma".to_string()]);
}

#[test]
fn parse_splits_on_commas_and_trims() {
    let q = Query::parse("rpg, puzzle ,  short");
    match q {
        Query::AtLeastOneOfTag(ts) => {
            assert_eq!(ts, vec![tag("rpg"), tag("puzzle"), tag("short")]);
        }
        _ => panic!("parse must build a tag disjunction"),
    }
    match Query::parse("solo") {
        Query::AtLeastOneOfTag(ts) => assert_eq!(ts, vec![tag("solo")]),
        _ => panic!("parse must build a tag disjunction"),
    }
}

#[test]
fn filtering_a_query_subtracts_hidden_tags() {
    let s = sample_storage();
    let filter = Filter { label: "no rpg".to_owned(), hide: vec!["rpg".to_owned()] };
    let filtered = Query::All.filter(&filter);
    let (slugs, _) = filtered.search(&s);
    assert_eq!(slugs, vec!["gamma".to_string()]);

    let unfiltered: QueryFiltered = Query::All.dont_filter();
    let (slugs, _) = unfiltered.search(&s);
    assert_eq!(slugs.len(), 3);

    let twice = Query::All.dont_filter().filter(&filter);
    let (slugs, _) = twice.search(&s);
    assert_eq!(slugs, vec!["gamma".to_string()]);
}

fn implying(pairs: &[(&str, &[&str])]) -> TagInfo {
    TagInfo {
        tags: pairs
            .iter()
            .map(|(name, implies)| {
                (
                    tag(name),
                    SingleTagInfo {
                        category: None,
                        description: None,
                        implies: implies.iter().map(|t| tag(t)).collect(),
                        priority: 0,
                        label: None,
                    },
                )
            })
            .collect(),
        categories: Vec::new(),
    }
}

#[test]
fn implied_tags_close_transitively() {
    let info = implying(&[("a", &["b"]), ("b", &["c"]), ("d", &["a"])]);
    let mut r = info.get_implied_tags(&vec![tag("a")]);
    r.sort();
    assert_eq!(r, vec![tag("a"), tag("b"), tag("c")]);
}

#[test]
fn implied_tags_handle_cycles() {
    let info = implying(&[("a", &["b"]), ("b", &["a", "b"])]);
    let mut r = info.get_implied_tags(&vec![tag("b")]);
    r.sort();
    assert_eq!(r, vec![tag("a"), tag("b")]);
}

#[test]
fn implied_tags_keep_unknown_bases() {
    let info = implying(&[("a", &["b"])]);
    let mut r = info.get_implied_tags(&vec![tag("x"), tag("a")]);
    r.sort();
    assert_eq!(r, vec![tag("a"), tag("b"), tag("x")]);
}

#[test]
fn parse_keeps_empty_segments() {
    match Query::parse("a,,b,") {
        Query::AtLeastOneOfTag(ts) => {
            assert_eq!(ts, vec![tag("a"), tag(""), tag("b"), tag("")]);
        }
        _ => panic!("parse must build a tag disjunction"),
    }
    match Query::parse("  spaced  ") {
        Query::AtLeastOneOfTag(ts) => assert_eq!(ts, vec![tag("spaced")]),
        _ => panic!("parse must build a tag disjunction"),
    }
}

#[test]
fn get_matching_pairs_slugs_with_hacks_in_order() {
    let s = sample_storage();
    let q = Query::AtLeastOneOfTag(vec![tag("rpg"), tag("puzzle")]);
    let (pairs, issues) = q.get_matching(&s);
    let names: Vec<&str> = pairs.iter().map(|(slug, _)| slug.as_str()).collect();
    assert_eq!(names, vec!["alpha", "beta", "gamma"]);
    assert_eq!(pairs[2].1.data.name, "h");
    assert!(issues.is_empty());
}

#[test]
fn get_matching_reports_dangling_slugs() {
    let mut s = sample_storage();
    // Register a tag entry whose hack never got stored.
    s.tags.add_hack_with_tag(&tag("rpg"), "ghost-slug".to_owned());
    let q = Query::AtLeastOneOfTag(vec![tag("rpg"), tag("unknown")]);
    let (pairs, issues) = q.get_matching(&s);
    let names: Vec<&str> = pairs.iter().map(|(slug, _)| slug.as_str()).collect();
    assert_eq!(names, vec!["alpha", "beta"]);
    assert_eq!(issues.len(), 2);
    match &issues[0] {
        QueryIssue::UnknownTag(t) => assert_eq!(t.0, "unknown"),
        _ => panic!("the unknown tag comes first"),
    }
    match &issues[1] {
        QueryIssue::HackNotFound(slug) => assert_eq!(slug, "ghost-slug"),
        _ => panic!("the dangling slug is reported after the unknown tags"),
    }
}
