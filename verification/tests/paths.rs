use kickoff::app::{display_path_in, expand_typed_path, Field};

#[test]
fn typed_paths_expand() {
    let home = Some("/home/me".to_string());
    assert_eq!(expand_typed_path("  /typed/dir/ ", home.clone()), Some("/typed/dir".to_string()));
    assert_eq!(expand_typed_path("~", home.clone()), Some("/home/me".to_string()));
    assert_eq!(expand_typed_path("~/src/", home.clone()), Some("/home/me/src".to_string()));
    assert_eq!(expand_typed_path("~//etc", home.clone()), Some("/etc".to_string()));
    assert_eq!(expand_typed_path("/", home.clone()), Some("/".to_string()));
    assert_eq!(expand_typed_path("///", home.clone()), Some("/".to_string()));
    assert_eq!(expand_typed_path("repo", home.clone()), None);
    assert_eq!(expand_typed_path("~x", home), None);
    assert_eq!(expand_typed_path("~/src", None), None);
    assert_eq!(expand_typed_path("", Some("/h".to_string())), None);
}

#[test]
fn home_is_shown_as_tilde() {
    assert_eq!(display_path_in(Some("/home/me"), "/home/me/src/repo"), "~/src/repo");
    assert_eq!(display_path_in(Some("/home/me"), "/home/me"), "~");
    assert_eq!(display_path_in(Some("/home/me"), "/home/meow"), "/home/meow");
    assert_eq!(display_path_in(None, "/home/me/x"), "/home/me/x");
}

#[test]
fn fields_cycle_in_tab_order() {
    assert_eq!(Field::Directory.step(1), Field::Harness);
    assert_eq!(Field::Title.step(1), Field::Directory);
    assert_eq!(Field::Directory.step(-1), Field::Title);
    assert_eq!(Field::Branch.step(-1), Field::Harness);
    assert_eq!(Field::Harness.step(4), Field::Harness);
    assert_eq!(Field::Harness.step(-5), Field::Directory);
}
