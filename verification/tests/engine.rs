use pkr_rename::filename::Filename;
use pkr_rename::filename::Res;
use pkr_rename::rename_proc::insert;
use pkr_rename::rename_proc::insert_tail;
use pkr_rename::rename_proc::remove;
use pkr_rename::rename_proc::remove_tail;
use pkr_rename::rename_proc::replace;
use pkr_rename::rename_proc::sp;
use pkr_rename::rename_proc::sp2;
use pkr_rename::rename_proc::RenameError;

fn fname(stem: &str, ext: Option<&str>) -> Filename {
    Filename::new(stem.to_string(), ext.map(|e| e.to_string()))
}

fn expect_err(r: Result<Box<Vec<Res>>, RenameError>) -> RenameError {
    match r {
        Ok(_) => panic!("expected an error"),
        Err(e) => e,
    }
}

#[test]
fn full_reconstruction() {
    let f = fname("a", Some("txt"));
    assert_eq!(f.stem(), "a");
    assert_eq!(f.extension(), "txt");
    assert_eq!(f.full(), "a.txt");

    let g = fname("a", None);
    assert_eq!(g.extension(), "");
    assert_eq!(g.full(), "a.");

    let h = fname("a", Some(""));
    assert_eq!(h.full(), "a.");
}

#[test]
fn insert_prefixes_every_stem() {
    let targets = Box::new(vec![fname("abc", Some("txt")), fname("xyz", Some("cfg"))]);
    let results = insert(targets, "pre");
    assert_eq!(results.len(), 2);
    assert_eq!(results[0].orig(), "abc.txt");
    assert_eq!(results[0].alter(), "preabc.txt");
    assert_eq!(results[1].alter(), "prexyz.cfg");
    assert_eq!(results[0].orig_with_highlight(), "\x1b[44m\x1b[0mabc.txt");
    assert_eq!(results[0].alter_with_highlight(), "\x1b[41mpre\x1b[0mabc.txt");
}

#[test]
fn insert_tail_appends_after_stem() {
    let targets = Box::new(vec![fname("予定", Some("md"))]);
    let results = insert_tail(targets, "X");
    assert_eq!(results.len(), 1);
    assert_eq!(results[0].alter(), "予定X.md");
    // the insert span starts at the stem's byte length, past the
    // three-byte characters
    assert_eq!(results[0].alter_with_highlight(), "予定\x1b[41mX\x1b[0m.md");
}

#[test]
fn remove_drops_characters_not_bytes() {
    let targets = Box::new(vec![fname("予定調和", Some("txt"))]);
    let results = remove(targets, 2);
    assert_eq!(results.len(), 1);
    assert_eq!(results[0].alter(), "調和.txt");
    // two characters removed, six bytes trimmed
    assert_eq!(results[0].orig_with_highlight(), "\x1b[44m予定\x1b[0m調和.txt");
}

#[test]
fn remove_whole_stem_leaves_empty_stem() {
    let targets = Box::new(vec![fname("予定調和", None)]);
    let results = remove(targets, 4);
    assert_eq!(results.len(), 1);
    assert_eq!(results[0].alter(), ".");
    assert_eq!(results[0].orig_with_highlight(), "\x1b[44m予定調和\x1b[0m.");
}

#[test]
fn remove_tail_drops_characters_at_end() {
    let targets = Box::new(vec![fname("abc予定", Some("rs"))]);
    let results = remove_tail(targets, 2);
    assert_eq!(results.len(), 1);
    assert_eq!(results[0].alter(), "abc.rs");
    assert_eq!(results[0].orig_with_highlight(), "abc\x1b[44m予定\x1b[0m.rs");
}

#[test]
fn insert_then_remove_restores_stem() {
    let targets = Box::new(vec![fname("abc", Some("txt"))]);
    let inserted = insert(targets, "pre");
    assert_eq!(inserted[0].alter(), "preabc.txt");

    let again = Box::new(vec![fname("preabc", Some("txt"))]);
    let removed = remove(again, 3);
    assert_eq!(removed[0].alter(), "abc.txt");
}

#[test]
fn replace_first_match_only() {
    let targets = Box::new(vec![fname("hello", Some("rs"))]);
    let results = replace(targets, "l", "L").unwrap();
    assert_eq!(results.len(), 1);
    assert_eq!(results[0].alter(), "heLlo.rs");
    assert_eq!(results[0].orig_with_highlight(), "he\x1b[44ml\x1b[0mlo.rs");
    assert_eq!(results[0].alter_with_highlight(), "he\x1b[41mL\x1b[0mlo.rs");
}

#[test]
fn replace_excludes_names_without_match() {
    let targets = Box::new(vec![
        fname("xyz", Some("a")),
        fname("hello", Some("b")),
        fname("xyzlx", Some("c")),
    ]);
    let results = replace(targets, "l", "L").unwrap();
    assert_eq!(results.len(), 2);
    assert_eq!(results[0].alter(), "heLlo.b");
    assert_eq!(results[1].alter(), "xyzLx.c");
}

#[test]
fn replace_rejects_bad_pattern() {
    let targets = Box::new(vec![fname("abc", Some("txt"))]);
    let err = expect_err(replace(targets, "(", "x"));
    assert_eq!(err, RenameError::BadPattern);
}

#[test]
fn sp_reformats_date_without_hour() {
    let targets = Box::new(vec![fname("alice2021年3月5日", Some("txt"))]);
    let results = sp(targets).unwrap();
    assert_eq!(results.len(), 1);
    assert_eq!(results[0].alter(), "alice20210305.txt");
    assert_eq!(
        results[0].orig_with_highlight(),
        "alice\x1b[44m2021年3月5日\x1b[0m.txt"
    );
    assert_eq!(
        results[0].alter_with_highlight(),
        "alice\x1b[41m20210305\x1b[0m.txt"
    );
}

#[test]
fn sp_reformats_date_with_hour() {
    let targets = Box::new(vec![fname("bob2019年12月1日09_30", Some("txt"))]);
    let results = sp(targets).unwrap();
    assert_eq!(results.len(), 1);
    assert_eq!(results[0].alter(), "bob20191201_0930.txt");
}

#[test]
fn sp_fails_without_date_token() {
    let targets = Box::new(vec![fname("nodate", Some("txt"))]);
    let err = expect_err(sp(targets));
    assert_eq!(err, RenameError::NoDateToken);
}

#[test]
fn sp_fails_on_wide_month_field() {
    let targets = Box::new(vec![fname("a2021年123月5日", Some("txt"))]);
    let err = expect_err(sp(targets));
    assert_eq!(err, RenameError::MalformedToken);
}

#[test]
fn sp_first_failure_aborts_batch() {
    let targets = Box::new(vec![
        fname("alice2021年3月5日", Some("txt")),
        fname("nodate", Some("txt")),
    ]);
    let err = expect_err(sp(targets));
    assert_eq!(err, RenameError::NoDateToken);
}

#[test]
fn sp2_reformats_dashed_date() {
    let targets = Box::new(vec![fname("report2022-07-04_final", Some("dat"))]);
    let results = sp2(targets).unwrap();
    assert_eq!(results.len(), 1);
    // the match takes the trailing underscore, and the reformatted token
    // discards it
    assert_eq!(results[0].alter(), "report20220704_ssfinal.dat");
    assert_eq!(
        results[0].orig_with_highlight(),
        "report\x1b[44m2022-07-04_\x1b[0mfinal.dat"
    );
    assert_eq!(
        results[0].alter_with_highlight(),
        "report\x1b[41m20220704_ss\x1b[0mfinal.dat"
    );
}

#[test]
fn sp2_excludes_names_without_date() {
    let targets = Box::new(vec![
        fname("notes_march", Some("txt")),
        fname("log2023-11-30", Some("txt")),
    ]);
    let results = sp2(targets).unwrap();
    assert_eq!(results.len(), 1);
    assert_eq!(results[0].alter(), "log20231130_ss.txt");
}

#[test]
fn extension_is_preserved_by_every_operation() {
    let one = || Box::new(vec![fname("a2021年3月5日b2022-07-04c", Some("cfg"))]);
    assert!(insert(one(), "x")[0].alter().ends_with(".cfg"));
    assert!(insert_tail(one(), "x")[0].alter().ends_with(".cfg"));
    assert!(remove(one(), 1)[0].alter().ends_with(".cfg"));
    assert!(remove_tail(one(), 1)[0].alter().ends_with(".cfg"));
    assert!(replace(one(), "b", "y").unwrap()[0].alter().ends_with(".cfg"));
    assert!(sp(one()).unwrap()[0].alter().ends_with(".cfg"));
    assert!(sp2(one()).unwrap()[0].alter().ends_with(".cfg"));
}

#[test]
fn empty_text_and_empty_stem_edges() {
    let results = insert(Box::new(vec![fname("", Some("txt"))]), "x");
    assert_eq!(results[0].alter(), "x.txt");

    let results = insert(Box::new(vec![fname("abc", Some("txt"))]), "");
    assert_eq!(results[0].alter(), "abc.txt");
    assert_eq!(results[0].alter_with_highlight(), "\x1b[41m\x1b[0mabc.txt");

    let results = remove(Box::new(vec![fname("abc", Some("txt"))]), 0);
    assert_eq!(results[0].alter(), "abc.txt");
    assert_eq!(results[0].orig_with_highlight(), "\x1b[44m\x1b[0mabc.txt");

    let err = expect_err(sp(Box::new(vec![fname("", Some("txt"))])));
    assert_eq!(err, RenameError::NoDateToken);
}

#[test]
fn replace_pattern_is_a_regex() {
    let targets = Box::new(vec![fname("hello", Some("rs"))]);
    let results = replace(targets, "l+", "L").unwrap();
    assert_eq!(results[0].alter(), "heLo.rs");
    assert_eq!(results[0].orig_with_highlight(), "he\x1b[44mll\x1b[0mo.rs");
}

#[test]
fn replace_empty_pattern_matches_at_start() {
    let targets = Box::new(vec![fname("abc", Some("rs"))]);
    let results = replace(targets, "", "X").unwrap();
    assert_eq!(results[0].alter(), "Xabc.rs");
    assert_eq!(results[0].alter_with_highlight(), "\x1b[41mX\x1b[0mabc.rs");
}

#[test]
fn sp_pads_single_digit_hour() {
    let targets = Box::new(vec![fname("x2020年1月2日3_45", None)]);
    let results = sp(targets).unwrap();
    assert_eq!(results[0].alter(), "x20200102_0345.");
}

#[test]
fn remove_tail_whole_stem_leaves_empty_stem() {
    let targets = Box::new(vec![fname("ab", Some("txt"))]);
    let results = remove_tail(targets, 2);
    assert_eq!(results[0].alter(), ".txt");
    assert_eq!(results[0].orig_with_highlight(), "\x1b[44mab\x1b[0m.txt");
}

#[test]
fn sp_reports_first_error_in_order() {
    let targets = Box::new(vec![
        fname("nodate", Some("txt")),
        fname("a2021年123月5日", Some("txt")),
    ]);
    let err = expect_err(sp(targets));
    assert_eq!(err, RenameError::NoDateToken);
}
