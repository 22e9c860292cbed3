use hackstore::filter::{Filter, Filters};
use hackstore::hack::{sort_tags_lex, Hack, HackData, HackFile};
use hackstore::message::{Message, MessageKind, Messages};
use hackstore::taginfo::{CategoryInfo, SingleTagInfo, TagInfo};
use hackstore::tags::{Tag, Tags};

fn tag(s: &str) -> Tag {
    Tag(s.to_owned())
}

fn hack_with_tags(tags: &[&str]) -> Hack {
    Hack {
        data: HackData {
            name: "A hack".to_owned(),
            authors: vec!["someone".to_owned()],
            description: None,
            tags: tags.iter().map(|t| tag(t)).collect(),
            source: None,
            skytemple_db_id: None,
            screenshots: Vec::new(),
            links: Vec::new(),
            files: Vec::new(),
        },
        implied_tags: Vec::new(),
        folder: "hacks/a-hack".to_owned(),
    }
}

fn plain_info(category: Option<&str>, priority: u32, label: Option<&str>) -> SingleTagInfo {
    SingleTagInfo {
        category: category.map(|c| c.to_owned()),
        description: None,
        implies: Vec::new(),
        priority,
        label: label.map(|l| l.to_owned()),
    }
}

#[test]
fn messages_collect_and_report_errors() {
    let mut m = Messages::new();
    assert!(m.is_empty());
    assert!(!m.have_error());
    m.add_message_from_string("all good".to_owned(), MessageKind::Success);
    assert!(!m.have_error());
    m.add_message(Message::from_string("broke".to_owned(), MessageKind::Error));
    assert!(m.have_error());
    assert!(!m.is_empty());
    assert_eq!(m.messages().len(), 2);
    assert_eq!(m.messages()[1].value(), "broke");
    assert_eq!(m.messages()[0].kind(), MessageKind::Success);

    let single = Messages::create_with_message("hi".to_owned(), MessageKind::Success);
    assert_eq!(single.messages().len(), 1);
    assert_eq!(single.messages()[0].value(), "hi");
}

#[test]
fn tag_table_registers_and_finds_hacks() {
    let mut tags = Tags::new();
    assert!(tags.get_hack_for_tag(&tag("nonexistent")).is_none());
    tags.add_hack_with_tag(&tag("rpg"), "alpha".to_owned());
    tags.add_hack_with_tag(&tag("rpg"), "beta".to_owned());
    tags.add_hack_with_tag(&tag("rpg"), "alpha".to_owned());
    tags.add_hack_with_tag(&tag("puzzle"), "gamma".to_owned());
    let rpg = tags.get_hack_for_tag(&tag("rpg")).unwrap();
    assert_eq!(rpg, &vec!["alpha".to_string(), "beta".to_string()]);
    let puzzle = tags.get_hack_for_tag(&tag("puzzle")).unwrap();
    assert_eq!(puzzle, &vec!["gamma".to_string()]);
}

#[test]
fn filters_hide_matching_hacks() {
    let filter = Filter::default();
    assert_eq!(filter.label, "Default");
    assert_eq!(filter.hide, vec!["suggestive".to_string(), "explicit".to_string()]);
    assert!(filter.pass_filter(&hack_with_tags(&["rpg"])));
    assert!(!filter.pass_filter(&hack_with_tags(&["rpg", "explicit"])));
}

#[test]
fn filter_table_lookup_and_default() {
    let strict = Filter { label: "Strict".to_owned(), hide: vec!["rpg".to_owned()] };
    let table = Filters::from_entries(
        vec![("strict".to_owned(), strict), ("none".to_owned(), Filter {
            label: "Everything".to_owned(),
            hide: Vec::new(),
        })],
        "strict".to_owned(),
    );
    assert_eq!(table.get("strict").unwrap().label, "Strict");
    assert_eq!(table.get("none").unwrap().label, "Everything");
    assert!(table.get("missing").is_none());
    assert_eq!(table.get_default().label, "Strict");

    // A dangling default falls back to the built-in filter.
    let dangling = Filters::from_entries(Vec::new(), "gone".to_owned());
    assert_eq!(dangling.get_default().label, "Default");

    let builtin = Filters::default();
    assert_eq!(builtin.get_default().label, "Default");
}

#[test]
fn hack_and_file_tag_unions() {
    let file = HackFile {
        label: "patch".to_owned(),
        description: None,
        tags: vec![tag("english")],
        implied_tags: vec![tag("translated"), tag("english")],
        filename: "patch.zip".to_owned(),
    };
    let mut all = file.get_all_tags();
    all.sort();
    assert_eq!(all, vec![tag("english"), tag("translated")]);

    let mut hack = hack_with_tags(&["rpg"]);
    hack.implied_tags.push(tag("game"));
    hack.data.files.push(file);
    let mut tags = hack.all_tags();
    tags.sort();
    // A file's explicit tags do not count; its implied tags do.
    assert_eq!(tags, vec![tag("english"), tag("game"), tag("rpg"), tag("translated")]);
}

#[test]
fn taginfo_lookups() {
    let info = TagInfo {
        tags: vec![
            (tag("rpg"), plain_info(Some("genre"), 3, Some("Role-playing"))),
            (tag("nsfw"), plain_info(Some("majoronly"), 9, None)),
        ],
        categories: vec![("genre".to_owned(), CategoryInfo {
            background_color: "#fff".to_owned(),
            border_color: "#000".to_owned(),
            required_for_file: false,
            priority: 2,
        })],
    };
    assert!(info.get_tag(&tag("missing")).is_none());
    let rpg = info.get_tag(&tag("rpg")).unwrap();
    assert_eq!(rpg.priority, 3);
    let cat = info.get_category_for_single_tag_info(rpg, &tag("rpg")).unwrap();
    assert_eq!(cat.priority, 2);
    // A known tag whose category is unknown resolves to no category.
    let nsfw = info.get_tag(&tag("nsfw")).unwrap();
    assert!(info.get_category_for_single_tag_info(nsfw, &tag("nsfw")).is_none());
    assert!(info.get_category_for_tag_id(&tag("rpg")).is_some());
    assert!(info.get_category_for_tag_id(&tag("missing")).is_none());
}

#[test]
fn orders_tags_by_category_then_priority_then_label() {
    let info = TagInfo {
        tags: vec![
            (tag("b-low"), plain_info(Some("minor"), 1, None)),
            (tag("a-high"), plain_info(Some("major"), 1, None)),
            (tag("z"), plain_info(Some("major"), 5, None)),
            (tag("renamed"), plain_info(Some("major"), 5, Some("aaa"))),
        ],
        categories: vec![
            ("major".to_owned(), CategoryInfo {
                background_color: String::new(),
                border_color: String::new(),
                required_for_file: false,
                priority: 9,
            }),
            ("minor".to_owned(), CategoryInfo {
                background_color: String::new(),
                border_color: String::new(),
                required_for_file: false,
                priority: 1,
            }),
        ],
    };
    let sorted = info.orders_tags(vec![tag("b-low"), tag("z"), tag("a-high"), tag("renamed")]);
    // Category priority 9 before 1; within it, tag priority 5 before 1;
    // within that, by label ("aaa" before "z").
    assert_eq!(sorted, vec![tag("renamed"), tag("z"), tag("a-high"), tag("b-low")]);
}

#[test]
fn major_only_tags_are_collected_and_sorted() {
    let info = TagInfo {
        tags: vec![
            (tag("nsfw"), plain_info(Some("majoronly"), 0, None)),
            (tag("gore"), plain_info(Some("majoronly"), 0, None)),
            (tag("rpg"), plain_info(Some("genre"), 0, None)),
        ],
        categories: Vec::new(),
    };
    let mut hack = hack_with_tags(&["rpg", "nsfw"]);
    hack.implied_tags.push(tag("gore"));
    let majors = hack.get_major_only_tags(&info);
    let names: Vec<&str> = majors.iter().map(|(t, _)| t.0.as_str()).collect();
    assert_eq!(names, vec!["gore", "nsfw"]);
    assert!(hack.need_majority_token(&info));
    assert!(!hack_with_tags(&["rpg"]).need_majority_token(&info));
}

#[test]
fn sort_tags_lex_orders_by_contents() {
    let sorted = sort_tags_lex(vec![tag("pear"), tag("apple"), tag("fig"), tag("apple")]);
    assert_eq!(sorted, vec![tag("apple"), tag("apple"), tag("fig"), tag("pear")]);
}

#[test]
fn secrets_round_trip() {
    let s = hackstore::Secrets::new("reload-password".to_owned());
    assert_eq!(s.reload_page_password(), "reload-password");
}

#[test]
fn audit_files_reports_unreferenced_and_missing() {
    let mut h = hack_with_tags(&[]);
    h.data.screenshots.push("shot1.png".to_owned());
    h.data.files.push(HackFile {
        label: "patch".to_owned(),
        description: None,
        tags: Vec::new(),
        implied_tags: Vec::new(),
        filename: "patch.zip".to_owned(),
    });
    let present = vec![
        "hack.json".to_owned(),
        "patch.zip".to_owned(),
        "index.html".to_owned(),
        "stray.txt".to_owned(),
    ];
    let (unreferenced, missing) = h.audit_files(&present);
    assert_eq!(unreferenced, vec!["stray.txt".to_string()]);
    assert_eq!(missing, vec!["shot1.png".to_string()]);
}

#[test]
fn audit_files_is_clean_when_everything_matches() {
    let mut h = hack_with_tags(&[]);
    h.data.files.push(HackFile {
        label: "patch".to_owned(),
        description: None,
        tags: Vec::new(),
        implied_tags: Vec::new(),
        filename: "patch.zip".to_owned(),
    });
    let present = vec!["hack.json".to_owned(), "patch.zip".to_owned()];
    let (unreferenced, missing) = h.audit_files(&present);
    assert!(unreferenced.is_empty());
    assert!(missing.is_empty());
}
