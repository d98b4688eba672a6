use grader::discover::{
    discover, ends_with_x, filter_source_keys, last_segment_x, parent_dir_x, parse_student_info,
    project_paths_x,
};

#[test]
fn wellformed_directory_name_yields_exactly_three_fields() {
    let r = parse_student_info("1001_Ann_Lee").unwrap();
    assert_eq!(r.0, "1001");
    assert_eq!(r.1, "Ann");
    assert_eq!(r.2, "Lee");
}

#[test]
fn two_fields_are_rejected() {
    assert!(parse_student_info("Ann_Lee").is_none());
}

#[test]
fn four_fields_are_rejected() {
    assert!(parse_student_info("1001_Ann_Van_Lee").is_none());
}

#[test]
fn one_field_is_rejected() {
    assert!(parse_student_info("AnnLee").is_none());
}

#[test]
fn empty_fields_still_count() {
    let r = parse_student_info("1001__Lee").unwrap();
    assert_eq!(r.1, "");
}

#[test]
fn source_keys_are_filtered_and_deduplicated() {
    let keys = vec![
        String::from("set/1001_Ann_Lee/ProjA/main.pde"),
        String::from("set/1001_Ann_Lee/ProjA/readme.txt"),
        String::from("set/1001_Ann_Lee/ProjA/main.pde"),
        String::from("set/1002_Bo_Ng/ProjB/sketch.pde"),
    ];
    let filtered = filter_source_keys(&keys);
    assert_eq!(
        filtered,
        vec![
            String::from("set/1001_Ann_Lee/ProjA/main.pde"),
            String::from("set/1002_Bo_Ng/ProjB/sketch.pde"),
        ]
    );
}

#[test]
fn project_paths_are_distinct_parents() {
    let keys = vec![
        String::from("set/1001_Ann_Lee/ProjA/main.pde"),
        String::from("set/1001_Ann_Lee/ProjA/helper.pde"),
        String::from("set/1002_Bo_Ng/ProjB/sketch.pde"),
    ];
    let paths = project_paths_x(&keys);
    assert_eq!(
        paths,
        vec![String::from("set/1001_Ann_Lee/ProjA"), String::from("set/1002_Bo_Ng/ProjB")]
    );
}

#[test]
fn discover_groups_files_and_derives_identity() {
    let keys = vec![
        String::from("set/1001_Ann_Lee/ProjA/main.pde"),
        String::from("set/1001_Ann_Lee/ProjA/helper.pde"),
        String::from("set/1001_Ann_Lee/ProjA/notes.md"),
        String::from("set/1002_Bo_Ng/ProjB/sketch.pde"),
    ];
    let subs = discover(&keys);
    assert_eq!(subs.len(), 2);
    assert_eq!(subs[0].id, "1001");
    assert_eq!(subs[0].first_name, "Ann");
    assert_eq!(subs[0].last_name, "Lee");
    assert_eq!(subs[0].project_path, "set/1001_Ann_Lee/ProjA");
    assert_eq!(
        subs[0].source_files,
        vec![
            String::from("set/1001_Ann_Lee/ProjA/main.pde"),
            String::from("set/1001_Ann_Lee/ProjA/helper.pde"),
        ]
    );
    assert_eq!(subs[1].id, "1002");
    assert_eq!(subs[1].project_path, "set/1002_Bo_Ng/ProjB");
}

#[test]
fn malformed_directory_excludes_only_that_submission() {
    let keys = vec![
        String::from("set/justonename/ProjX/main.pde"),
        String::from("set/1002_Bo_Ng/ProjB/sketch.pde"),
    ];
    let subs = discover(&keys);
    assert_eq!(subs.len(), 1);
    assert_eq!(subs[0].id, "1002");
}

#[test]
fn parent_and_segment_helpers() {
    assert_eq!(parent_dir_x("a/b/c.pde"), "a/b");
    assert_eq!(parent_dir_x("c.pde"), "");
    assert_eq!(last_segment_x("set/1001_Ann_Lee"), "1001_Ann_Lee");
    assert_eq!(last_segment_x("alone"), "alone");
    assert!(ends_with_x("main.pde", ".pde"));
    assert!(!ends_with_x("main.txt", ".pde"));
    assert!(!ends_with_x("de", ".pde"));
}
