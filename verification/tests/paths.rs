use glicol_cli::findwav::is_wav_name;
use glicol_cli::samples::{
    expand_home_dir, is_hidden_name, is_sample_extension, path_join, sample_key,
};
use glicol_cli::watcher::{is_relevant_change, FileEventKind};

#[test]
fn home_expansion() {
    assert_eq!(
        expand_home_dir("~/samples", Some("/home/u"), "/cwd"),
        "/home/u/samples"
    );
    assert_eq!(
        expand_home_dir("~//samples", Some("/home/u"), "/cwd"),
        "/home/u/samples"
    );
    // without a known home directory the path stays as written, resolved
    // against the working directory
    assert_eq!(expand_home_dir("~/samples", None, "/cwd"), "/cwd/~/samples");
    assert_eq!(expand_home_dir("kits", Some("/home/u"), "/cwd"), "/cwd/kits");
    assert_eq!(expand_home_dir("/abs/kits", Some("/home/u"), "/cwd"), "/abs/kits");
}

#[test]
fn join_rules() {
    assert_eq!(path_join("/a/b", "c"), "/a/b/c");
    assert_eq!(path_join("/a/b/", "c"), "/a/b/c");
    assert_eq!(path_join("/a/b", "/abs"), "/abs");
}

#[test]
fn sample_keys() {
    // one level below a sample root the parent directory prefixes the key
    assert_eq!(sample_key("kick", 2, "808"), "\\kick808");
    assert_eq!(sample_key("kick", 1, "808"), "\\808");
    assert_eq!(sample_key("", 2, "snare"), "\\snare");
}

#[test]
fn sample_extensions() {
    assert!(is_sample_extension("wav"));
    assert!(is_sample_extension("mp3"));
    assert!(is_sample_extension("ogg"));
    assert!(!is_sample_extension("flac"));
    assert!(!is_sample_extension(""));
    assert!(!is_sample_extension("wavx"));
}

#[test]
fn hidden_names() {
    assert!(is_hidden_name(".git"));
    assert!(!is_hidden_name("drums"));
    assert!(!is_hidden_name(""));
}

#[test]
fn wav_names() {
    assert!(is_wav_name("kick.wav"));
    assert!(is_wav_name(".wav"));
    assert!(!is_wav_name("wav"));
    assert!(!is_wav_name("kick.mp3"));
    assert!(!is_wav_name("kickwav"));
}

#[test]
fn relevant_changes() {
    assert!(is_relevant_change(FileEventKind::DataModified, true));
    assert!(is_relevant_change(FileEventKind::RenamedInto, true));
    assert!(!is_relevant_change(FileEventKind::DataModified, false));
    assert!(!is_relevant_change(FileEventKind::RenamedAway, true));
    assert!(!is_relevant_change(FileEventKind::Created, true));
    assert!(!is_relevant_change(FileEventKind::Removed, true));
    assert!(!is_relevant_change(FileEventKind::Accessed, true));
    assert!(!is_relevant_change(FileEventKind::Other, true));
}
