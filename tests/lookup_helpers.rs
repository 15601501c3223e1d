use comandos_utiles::lookup::{cheat_url, crate_url, filtrar_lineas, linea_en_seccion};

fn lines(v: &[&str]) -> Vec<String> {
    v.iter().map(|s| s.to_string()).collect()
}

#[test]
fn urls_follow_their_templates() {
    assert_eq!(cheat_url("tar"), "https://cheat.sh/tar");
    assert_eq!(crate_url("serde"), "https://crates.io/crates/serde");
}

#[test]
fn line_matches_section_after_leading_space() {
    assert!(linea_en_seccion("  git: reset", "git"));
    assert!(linea_en_seccion("\tgit: reset", "git"));
    assert!(linea_en_seccion("git: ", "git"));
    assert!(!linea_en_seccion("git:reset", "git"));
    assert!(!linea_en_seccion("gitk: x", "git"));
    assert!(!linea_en_seccion("# git: x", "git"));
}

#[test]
fn filter_keeps_all_lines_without_section() {
    let ls = lines(&["a: 1", "b: 2", ""]);
    assert_eq!(filtrar_lineas(ls.clone(), None), ls);
}

#[test]
fn filter_keeps_section_lines_in_order() {
    let ls = lines(&["a: 1", "  b: 2", "a:3", " a: 4", "c: a: 5"]);
    assert_eq!(filtrar_lineas(ls, Some("a")), lines(&["a: 1", " a: 4"]));
    assert!(filtrar_lineas(Vec::new(), Some("a")).is_empty());
}
