use ftp_deploy::paths::{file_name, join, parent, split_components, PathComponent};

#[test]
fn join_inserts_one_separator() {
    assert_eq!(join(&"/www".to_string(), &"a/b.txt".to_string()), "/www/a/b.txt");
    assert_eq!(join(&"www/".to_string(), &"b.txt".to_string()), "www/b.txt");
}

#[test]
fn join_with_empty_base_keeps_the_path() {
    assert_eq!(join(&"".to_string(), &"b.txt".to_string()), "b.txt");
}

#[test]
fn join_with_absolute_path_replaces_the_base() {
    assert_eq!(join(&"/www".to_string(), &"/other/b.txt".to_string()), "/other/b.txt");
}

#[test]
fn components_classify_each_segment() {
    let v = split_components(&"/a/./../b//c".to_string());
    assert_eq!(
        v,
        vec![
            PathComponent::RootDir,
            PathComponent::Normal("a".to_string()),
            PathComponent::CurDir,
            PathComponent::ParentDir,
            PathComponent::Normal("b".to_string()),
            PathComponent::Normal("c".to_string()),
        ]
    );
}

#[test]
fn components_of_relative_path() {
    let v = split_components(&"a/b".to_string());
    assert_eq!(
        v,
        vec![
            PathComponent::Normal("a".to_string()),
            PathComponent::Normal("b".to_string()),
        ]
    );
}

#[test]
fn components_of_empty_path() {
    assert_eq!(split_components(&"".to_string()), Vec::<PathComponent>::new());
}

#[test]
fn file_name_takes_the_last_segment() {
    assert_eq!(file_name(&"a/b.txt".to_string()), Some("b.txt".to_string()));
    assert_eq!(file_name(&"b.txt".to_string()), Some("b.txt".to_string()));
    assert_eq!(file_name(&"/x/y/z".to_string()), Some("z".to_string()));
}

#[test]
fn file_name_rejects_dot_segments_and_trailing_separator() {
    assert_eq!(file_name(&"a/..".to_string()), None);
    assert_eq!(file_name(&"a/.".to_string()), None);
    assert_eq!(file_name(&"a/".to_string()), None);
    assert_eq!(file_name(&"".to_string()), None);
}

#[test]
fn parent_drops_the_last_segment() {
    assert_eq!(parent(&"a/b/c".to_string()), Some("a/b".to_string()));
    assert_eq!(parent(&"/a.txt".to_string()), Some("/".to_string()));
    assert_eq!(parent(&"a.txt".to_string()), Some("".to_string()));
}

#[test]
fn parent_of_root_and_empty_is_none() {
    assert_eq!(parent(&"/".to_string()), None);
    assert_eq!(parent(&"".to_string()), None);
}
