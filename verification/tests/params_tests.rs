use image_renamer::params::Params;

#[test]
fn params_keep_what_they_were_given() {
    let p = Params::new(true, "/pictures".to_string());
    assert!(p.get_verbose());
    assert_eq!(p.get_path(), "/pictures");
}

#[test]
fn params_setters_replace_one_field_each() {
    let mut p = Params::new(false, String::new());
    p.set_path("/photos".to_string());
    assert_eq!(p.get_path(), "/photos");
    assert!(!p.get_verbose());
    p.set_verbose(true);
    assert!(p.get_verbose());
    assert_eq!(p.get_path(), "/photos");
}
