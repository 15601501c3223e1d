use comandos_utiles::store::{CommandStore, Entry, Section, StoreError};

fn sorted<T: Ord>(mut v: Vec<T>) -> Vec<T> {
    v.sort();
    v
}

#[test]
fn add_list_then_delete_scenario() {
    let mut s = CommandStore::new();
    assert_eq!(s.add_comando("git", "undo", "git reset --soft HEAD~1"), Ok(()));
    assert_eq!(
        s.list_comandos_seccion("git"),
        Ok(vec![("undo".to_string(), "git reset --soft HEAD~1".to_string())])
    );
    assert_eq!(s.delete_comando("git", "undo"), Ok(()));
    assert!(s.list_secciones().is_empty());
}

#[test]
fn duplicate_add_keeps_first_command() {
    let mut s = CommandStore::new();
    assert_eq!(s.add_comando("git", "undo", "cmd1"), Ok(()));
    assert_eq!(s.add_comando("git", "undo", "cmd2"), Err(StoreError::DuplicateName));
    assert_eq!(
        s.list_comandos_seccion("git"),
        Ok(vec![("undo".to_string(), "cmd1".to_string())])
    );
}

#[test]
fn same_name_in_other_section_is_allowed() {
    let mut s = CommandStore::new();
    assert_eq!(s.add_comando("git", "st", "git status"), Ok(()));
    assert_eq!(s.add_comando("svn", "st", "svn status"), Ok(()));
    assert_eq!(sorted(s.list_secciones()), vec!["git".to_string(), "svn".to_string()]);
}

#[test]
fn delete_reports_missing_section_and_name() {
    let mut s = CommandStore::new();
    assert_eq!(s.delete_comando("git", "undo"), Err(StoreError::SectionNotFound));
    s.add_comando("git", "undo", "cmd1").unwrap();
    assert_eq!(s.delete_comando("git", "redo"), Err(StoreError::NameNotFound));
    assert_eq!(s.list_secciones(), vec!["git".to_string()]);
}

#[test]
fn delete_of_last_entry_removes_section_only_then() {
    let mut s = CommandStore::new();
    s.add_comando("docker", "ps", "docker ps -a").unwrap();
    s.add_comando("docker", "img", "docker images").unwrap();
    s.add_comando("git", "log", "git log --oneline").unwrap();
    assert_eq!(s.delete_comando("docker", "ps"), Ok(()));
    assert_eq!(sorted(s.list_secciones()), vec!["docker".to_string(), "git".to_string()]);
    assert_eq!(s.delete_comando("docker", "img"), Ok(()));
    assert_eq!(s.list_secciones(), vec!["git".to_string()]);
    assert_eq!(s.list_comandos_seccion("docker"), Err(StoreError::SectionNotFound));
}

#[test]
fn list_section_of_missing_section_fails() {
    let s = CommandStore::new();
    assert_eq!(s.list_comandos_seccion("git"), Err(StoreError::SectionNotFound));
}

#[test]
fn list_all_flattens_every_triple() {
    let mut s = CommandStore::new();
    assert!(s.list_comandos().is_empty());
    s.add_comando("git", "undo", "git reset --soft HEAD~1").unwrap();
    s.add_comando("git", "st", "git status").unwrap();
    s.add_comando("ls", "all", "ls -la").unwrap();
    let t = |a: &str, b: &str, c: &str| (a.to_string(), b.to_string(), c.to_string());
    assert_eq!(
        sorted(s.list_comandos()),
        vec![
            t("git", "st", "git status"),
            t("git", "undo", "git reset --soft HEAD~1"),
            t("ls", "all", "ls -la"),
        ]
    );
}

#[test]
fn table_round_trip_keeps_store() {
    let mut s = CommandStore::new();
    s.add_comando("git", "undo", "cmd1").unwrap();
    s.add_comando("git", "st", "git status").unwrap();
    s.add_comando("k8s", "pods", "kubectl get pods").unwrap();
    let back = CommandStore::from_table(s.to_table()).unwrap();
    assert_eq!(sorted(back.list_comandos()), sorted(s.list_comandos()));
}

fn section(name: &str, entries: &[(&str, &str)]) -> Section {
    Section {
        name: name.to_string(),
        entries: entries
            .iter()
            .map(|(n, c)| Entry { name: n.to_string(), command: c.to_string() })
            .collect(),
    }
}

#[test]
fn from_table_drops_empty_sections() {
    let s = CommandStore::from_table(vec![section("empty", &[]), section("git", &[("st", "git status")])])
        .unwrap();
    assert_eq!(s.list_secciones(), vec!["git".to_string()]);
}

#[test]
fn from_table_refuses_duplicate_names() {
    let dup_section = vec![section("git", &[("a", "x")]), section("git", &[("b", "y")])];
    assert!(matches!(CommandStore::from_table(dup_section), Err(StoreError::ParseError)));
    let dup_entry = vec![section("git", &[("a", "x"), ("a", "y")])];
    assert!(matches!(CommandStore::from_table(dup_entry), Err(StoreError::ParseError)));
}
