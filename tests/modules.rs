use stacks::modules::{module_name, plan_modules};

fn text(s: &str) -> String {
    s.to_string()
}

#[test]
fn registers_modules_but_not_the_entry_script() {
    let files = vec![text("a.lua"), text("sub/b.lua"), text("main.lua")];
    let plan = plan_modules(&files);
    let names: Vec<(String, usize)> = plan.into_iter().collect();
    assert_eq!(names, vec![(text("a"), 0), (text("sub.b"), 1)]);
}

#[test]
fn first_file_with_a_name_wins() {
    let files = vec![text("x/y.lua"), text("x/y.lua"), text("z.lua")];
    assert_eq!(plan_modules(&files), vec![(text("x.y"), 0), (text("z"), 2)]);
}

#[test]
fn other_files_are_not_modules() {
    assert_eq!(module_name(&text("notes.txt")), None);
    assert_eq!(module_name(&text(".lua")), None);
    assert_eq!(module_name(&text("lua")), None);
    assert_eq!(module_name(&text("sub/.lua")), None);
    assert_eq!(module_name(&text("a/b/.lua")), None);
    assert_eq!(module_name(&text("sub/.x.lua")), Some(text("sub..x")));
    let files = vec![text("readme.md"), text("data/level.json"), text("sub/.lua")];
    assert!(plan_modules(&files).is_empty());
}

#[test]
fn module_names_are_dotted_paths() {
    assert_eq!(module_name(&text("a/b/c.lua")), Some(text("a.b.c")));
    assert_eq!(module_name(&text("Entity.lua")), Some(text("Entity")));
    assert_eq!(module_name(&text("main.lua")), Some(text("main")));
}

#[test]
fn nested_main_is_a_module() {
    let files = vec![text("sub/main.lua")];
    assert_eq!(plan_modules(&files), vec![(text("sub.main"), 0)]);
}
