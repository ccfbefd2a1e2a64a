use lex_core::migrate::{blessed_for_legacy, check_label, LabelMigration, MigrationOutcome};

#[test]
fn check_label_records_trimmed_legacy_site() {
    let src = ":: doc.table :: x\n";
    let mut sites: Vec<LabelMigration> = Vec::new();
    // The label span carries one trailing whitespace byte.
    check_label(&(3..13), src, &mut sites);
    assert_eq!(sites.len(), 1);
    assert_eq!(sites[0].byte_range, 3..12);
    assert_eq!(sites[0].from, "doc.table");
    assert_eq!(sites[0].to, "table");
}

#[test]
fn check_label_ignores_blessed_labels() {
    let src = ":: table :: x\n";
    let mut sites: Vec<LabelMigration> = Vec::new();
    check_label(&(3..9), src, &mut sites);
    assert!(sites.is_empty());
}

#[test]
fn check_label_ignores_bad_spans() {
    let src = ":: category ::\n";
    let mut sites: Vec<LabelMigration> = Vec::new();
    check_label(&(9..3), src, &mut sites);
    check_label(&(3..400), src, &mut sites);
    check_label(&(2..3), src, &mut sites);
    assert!(sites.is_empty());
    check_label(&(2..12), src, &mut sites);
    assert_eq!(sites.len(), 1);
    assert_eq!(sites[0].byte_range, 3..11);
    assert_eq!(sites[0].to, "metadata.category");
}

#[test]
fn check_label_appends_after_existing_sites() {
    let src = "front-matter publishing-date";
    let mut sites: Vec<LabelMigration> = Vec::new();
    check_label(&(0..12), src, &mut sites);
    check_label(&(12..28), src, &mut sites);
    assert_eq!(sites.len(), 2);
    assert_eq!(sites[0].from, "front-matter");
    assert_eq!(sites[1].byte_range, 13..28);
    assert_eq!(sites[1].to, "metadata.publishing-date");
}

#[test]
fn blessed_for_legacy_maps_each_entry() {
    assert_eq!(blessed_for_legacy("template"), Some("metadata.template"));
    assert_eq!(blessed_for_legacy("doc.image"), Some("image"));
    assert_eq!(blessed_for_legacy("doc.video"), Some("video"));
    assert_eq!(blessed_for_legacy("doc.audio"), Some("audio"));
    assert_eq!(blessed_for_legacy("image"), None);
    assert_eq!(blessed_for_legacy(""), None);
}

#[test]
fn outcome_modified_iff_migrations() {
    let unchanged = MigrationOutcome {
        rewritten: "a".to_string(),
        migrations: Vec::new(),
    };
    assert!(!unchanged.is_modified());
    let changed = MigrationOutcome {
        rewritten: "table".to_string(),
        migrations: vec![LabelMigration {
            byte_range: 0..9,
            from: "doc.table",
            to: "table",
        }],
    };
    assert!(changed.is_modified());
}

#[test]
fn apply_migrations_without_sites_returns_input() {
    assert_eq!(lex_core::migrate::apply_migrations("x y", &[]), "x y");
}

#[test]
fn apply_migrations_rewrites_every_site() {
    let src = ":: doc.image :: a\n:: category :: b\n";
    let mut sites: Vec<LabelMigration> = Vec::new();
    check_label(&(3..13), src, &mut sites);
    check_label(&(21..30), src, &mut sites);
    assert_eq!(sites.len(), 2);
    let out = lex_core::migrate::apply_migrations(src, &sites);
    assert_eq!(out, ":: image :: a\n:: metadata.category :: b\n");
}

#[test]
fn apply_migrations_order_of_sites_does_not_matter() {
    let src = "doc.audio|doc.video|template";
    let a = LabelMigration { byte_range: 0..9, from: "doc.audio", to: "audio" };
    let b = LabelMigration { byte_range: 10..19, from: "doc.video", to: "video" };
    let c = LabelMigration { byte_range: 20..28, from: "template", to: "metadata.template" };
    let forward = lex_core::migrate::apply_migrations(src, &[a.clone(), b.clone(), c.clone()]);
    let backward = lex_core::migrate::apply_migrations(src, &[c, a, b]);
    assert_eq!(forward, "audio|video|metadata.template");
    assert_eq!(forward, backward);
}

#[test]
fn apply_migrations_handles_multibyte_text_around_sites() {
    let src = "é doc.table ü";
    let site = LabelMigration { byte_range: 3..12, from: "doc.table", to: "table" };
    assert_eq!(lex_core::migrate::apply_migrations(src, &[site]), "é table ü");
}
