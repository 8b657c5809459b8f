use eir_svc::paths::{
    comps_have_parent, comps_start_with, extension_of, join_names, last_name, parse_components,
    render, same_path, starts_on_a_drive,
};

#[test]
fn paths_come_apart_and_together() {
    let comps = parse_components(r"C:\a\.\b//c\");
    assert_eq!(last_name(&comps), Some("c"));
    assert_eq!(render(&comps), r"C:\a\b\c");
    assert!(starts_on_a_drive(&comps));
    assert!(comps_have_parent(&comps));
    assert!(comps_start_with(&comps, &parse_components(r"c:\a")));
    assert!(!comps_start_with(&comps, &parse_components(r"c:\A\x")));
    assert!(same_path(r"C:\a\.\b", r"C:/a/b/"));
    assert!(!same_path(r"C:\a\b", r"C:\a\B"));
    assert!(same_path(r"c:\a", r"C:\a"));
    assert!(same_path(r"\\s\x\a", r"//s/x/a"));
    assert!(same_path(r"\\.\COM1", r"//./COM1"));
    assert!(!same_path(r"\\?\UNC\a/b", r"\\?\UNC\a\b"));
    assert!(same_path(r"\\?\UNC/a\b", r"\\?\UNC\a\b"));
    assert!(!same_path(r"\\?\a/b", r"\\?\a\b"));
    assert_eq!(
        join_names(r"C:\a", &vec!["b".into(), "c".into()]),
        r"C:\a\b\c"
    );
    assert_eq!(extension_of("a.tar.gz").as_deref(), Some("gz"));
    assert_eq!(extension_of(".profile"), None);
    assert_eq!(extension_of(".."), None);
}
