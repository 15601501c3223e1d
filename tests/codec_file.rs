use comandos_utiles::codec::{decode, load_comandos, save_comandos};
use comandos_utiles::store::{CommandStore, StoreError};

fn sorted<T: Ord>(mut v: Vec<T>) -> Vec<T> {
    v.sort();
    v
}

#[test]
fn missing_file_gives_empty_store_and_warning() {
    let (s, w) = load_comandos(None);
    assert_eq!(w, Some(StoreError::FileNotFound));
    assert!(s.list_secciones().is_empty());
}

#[test]
fn malformed_file_gives_empty_store_and_parse_error() {
    let (s, w) = load_comandos(Some("[git\nundo = "));
    assert_eq!(w, Some(StoreError::ParseError));
    assert!(s.list_comandos().is_empty());
    assert!(matches!(decode("git = 3"), Err(StoreError::ParseError)));
}

#[test]
fn decode_reads_sections_and_commands() {
    let text = "[git]\nundo = \"git reset --soft HEAD~1\"\nst = \"git status\"\n\n[ls]\nall = \"ls -la\"\n";
    let (s, w) = load_comandos(Some(text));
    assert_eq!(w, None);
    assert_eq!(sorted(s.list_secciones()), vec!["git".to_string(), "ls".to_string()]);
    assert_eq!(
        sorted(s.list_comandos_seccion("git").unwrap()),
        vec![
            ("st".to_string(), "git status".to_string()),
            ("undo".to_string(), "git reset --soft HEAD~1".to_string()),
        ]
    );
}

#[test]
fn empty_text_is_an_empty_store() {
    let (s, w) = load_comandos(Some(""));
    assert_eq!(w, None);
    assert!(s.list_secciones().is_empty());
}

#[test]
fn save_writes_toml_tables() {
    let mut s = CommandStore::new();
    s.add_comando("git", "undo", "git reset --soft HEAD~1").unwrap();
    assert_eq!(save_comandos(&s).unwrap(), "[git]\nundo = \"git reset --soft HEAD~1\"\n");
}

#[test]
fn encode_then_decode_round_trips() {
    let mut s = CommandStore::new();
    s.add_comando("git", "undo", "git reset --soft HEAD~1").unwrap();
    s.add_comando("git", "quote", "echo \"hi\" 'there' \\ done").unwrap();
    s.add_comando("odd section", "a.b", "printf '%s\\n' x").unwrap();
    s.add_comando("docker", "ps", "docker ps -a").unwrap();
    let text = save_comandos(&s).unwrap();
    let back = decode(&text).unwrap();
    assert_eq!(sorted(back.list_comandos()), sorted(s.list_comandos()));
}
