use gx::interpreter::paths::{basename, dirname, extension_text, extname, path_join};

fn strings(ps: &[&str]) -> Vec<String> {
    ps.iter().map(|p| p.to_string()).collect()
}

#[test]
fn extname_returns_the_last_extension_with_the_leading_dot() {
    assert_eq!(extname("report.tar.gz"), ".gz");
    assert_eq!(extname("main.gx"), ".gx");
    assert_eq!(extname("README"), "");
    assert_eq!(extname(".gitignore"), "", "a dotfile has no extension, matching Node's path.extname");
    assert_eq!(extname("lib/util.gx"), ".gx");
}

#[test]
fn extname_of_a_trailing_dot_and_of_no_file_name() {
    assert_eq!(extname("notes."), ".");
    assert_eq!(extname("..hidden"), ".hidden");
    assert_eq!(extname("/"), "");
    assert_eq!(extname(""), "");
}

#[test]
fn basename_is_the_final_component() {
    assert_eq!(basename("/srv/app/main.gx"), "main.gx");
    assert_eq!(basename("lib/"), "lib");
    assert_eq!(basename("/"), "");
    assert_eq!(basename(".."), "");
}

#[test]
fn dirname_drops_the_final_component() {
    assert_eq!(dirname("/srv/app/main.gx"), "/srv/app");
    assert_eq!(dirname("main.gx"), "");
    assert_eq!(dirname("/"), "");
}

#[test]
fn path_join_pushes_each_part_in_turn() {
    assert_eq!(path_join(&strings(&["a", "b", "c.gx"])), "a/b/c.gx");
    assert_eq!(path_join(&strings(&["a", "/abs", "x"])), "/abs/x");
    assert_eq!(path_join(&strings(&[])), "");
}

#[test]
fn the_extension_of_a_file_name() {
    assert_eq!(extension_text("report.tar.gz"), ".gz");
    assert_eq!(extension_text(".gitignore"), "");
    assert_eq!(extension_text("README"), "");
    assert_eq!(extension_text("notes."), ".");
}
