use open_cad::project::{CurrentProject, Project, ProjectManager};

#[test]
fn a_new_manager_remembers_nothing() {
    let m = ProjectManager::new();
    assert!(m.recent_projects.is_empty());
}

#[test]
fn adding_puts_the_project_first_with_its_name_and_time() {
    let mut m = ProjectManager::new();
    m.add_project_at(String::from("/home/u/alpha"), 100);
    m.add_project_at(String::from("/home/u/beta"), 200);
    assert_eq!(m.recent_projects.len(), 2);
    assert_eq!(m.recent_projects[0].path, "/home/u/beta");
    assert_eq!(m.recent_projects[0].name, "beta");
    assert_eq!(m.recent_projects[0].last_opened, 200);
    assert_eq!(m.recent_projects[1].path, "/home/u/alpha");
}

#[test]
fn reopening_moves_a_project_to_the_front_without_duplicating() {
    let mut m = ProjectManager::new();
    m.add_project_at(String::from("/a"), 1);
    m.add_project_at(String::from("/b"), 2);
    m.add_project_at(String::from("/a"), 3);
    assert_eq!(m.recent_projects.len(), 2);
    assert_eq!(m.recent_projects[0].path, "/a");
    assert_eq!(m.recent_projects[0].last_opened, 3);
    assert_eq!(m.recent_projects[1].path, "/b");
}

#[test]
fn the_list_keeps_only_the_newest_ten() {
    let mut m = ProjectManager::new();
    for i in 0..11 {
        m.add_project_at(format!("/p{}", i), i as u64);
    }
    assert_eq!(m.recent_projects.len(), 10);
    assert_eq!(m.recent_projects[0].path, "/p10");
    assert_eq!(m.recent_projects[9].path, "/p1");
}

#[test]
fn remove_project_drops_one_entry_in_place() {
    let mut m = ProjectManager::new();
    m.add_project_at(String::from("/a"), 1);
    m.add_project_at(String::from("/b"), 2);
    m.add_project_at(String::from("/c"), 3);
    m.remove_project(1);
    assert_eq!(m.recent_projects.len(), 2);
    assert_eq!(m.recent_projects[0].path, "/c");
    assert_eq!(m.recent_projects[1].path, "/a");
    // An index past the end changes nothing.
    m.remove_project(5);
    assert_eq!(m.recent_projects.len(), 2);
}

#[test]
fn add_project_uses_the_clock_but_keeps_the_shape() {
    let mut m = ProjectManager::new();
    m.add_project(String::from("/clocked"));
    assert_eq!(m.recent_projects.len(), 1);
    assert_eq!(m.recent_projects[0].name, "clocked");
}

#[test]
fn projects_are_named_after_the_last_path_component() {
    let p = Project::new(String::from("/home/u/work"));
    assert_eq!(p.name, "work");
    assert_eq!(p.path, "/home/u/work");
    let c = CurrentProject::new(String::from("plain"));
    assert_eq!(c.name, "plain");
}
