//! Where a write is staged, and the small text and path helpers.

use sotone_core::fsutil::{parent_dir, stage_path, temp_file_name, write_atomic, WriteStep};
use sotone_core::path::NotePath;
use sotone_core::render::render_markdown_with;
use sotone_core::template::{file_safe, is_file_safe};

#[test]
fn staged_temp_lives_in_the_same_directory_as_the_target() {
    let target = NotePath::new("/notes/ludo/file.md");
    let staged = stage_path(&target, 7, 1, 99);
    assert_eq!(staged.parent(), target.parent());
    assert_eq!(staged.text(), "/notes/ludo/.file.md.7.1.99.tmp");
    // A bare name is staged in the current directory.
    assert_eq!(parent_dir(&NotePath::new("file.md")).text(), ".");
    assert_eq!(parent_dir(&NotePath::new("/file.md")).text(), "/");
}

#[test]
fn temp_names_do_not_collide_within_a_process() {
    let path = NotePath::new("/notes/x.toml");
    let first = temp_file_name(&path, 4242, 0, 1_000);
    let second = temp_file_name(&path, 4242, 1, 1_000);
    assert_ne!(first, second);
    assert_eq!(first, ".x.toml.4242.0.1000.tmp");
    assert_eq!(temp_file_name(&NotePath::new("/"), 1, 2, 3), ".sotone.1.2.3.tmp");
}

#[test]
fn a_path_reads_by_its_components() {
    assert_eq!(NotePath::new("/a//b/./c/"), NotePath::new("/a/b/c"));
    assert_ne!(NotePath::new("a/b"), NotePath::new("/a/b"));
    assert_eq!(NotePath::new("../x").text(), "../x");
    assert_eq!(NotePath::new("/a/b").strip_prefix(&NotePath::new("/a")), Some(NotePath::new("b")));
    assert_eq!(NotePath::new("/ab").strip_prefix(&NotePath::new("/a")), None);
    assert_eq!(NotePath::new("/a").join(&NotePath::new("/b")), NotePath::new("/b"));
    assert_eq!(NotePath::new("/a/b.md").with_file_name("c.md"), NotePath::new("/a/c.md"));
    assert_eq!(NotePath::new("/").parent(), None);
    assert_eq!(NotePath::new("..").file_name(), None);
}

#[test]
fn a_file_name_is_made_safe() {
    assert!(is_file_safe("Checkout rebuild"));
    assert!(!is_file_safe("a/b") && !is_file_safe("a.") && !is_file_safe(""));
    assert!(!is_file_safe("tab\there") && !is_file_safe("c1\u{85}"));
    assert_eq!(file_safe("../escape: 1/2"), "..-escape- 1-2.md");
    assert_eq!(file_safe("same.md"), "same.md");
}

#[test]
fn an_empty_note_is_its_header() {
    assert_eq!(render_markdown_with(None, &[], None), "");
    assert_eq!(render_markdown_with(Some("# Notes"), &[], None), "# Notes\n\n");
}

/// Runs a write against a disk of one target and one temporary file.
fn run_write(fail_at: Option<WriteStep>) -> (WriteStep, &'static str, bool) {
    let (mut target, mut temp) = ("old", None);
    let mut step = WriteStep::MakeDir;
    loop {
        let ok = fail_at != Some(step);
        match step {
            WriteStep::CreateTemp if ok => temp = Some("half"),
            WriteStep::FillTemp if ok => temp = Some("new"),
            WriteStep::Swap if ok => target = temp.take().expect("a complete file"),
            WriteStep::RemoveTemp => temp = None,
            WriteStep::Done | WriteStep::Failed => return (step, target, temp.is_some()),
            _ => {}
        }
        step = write_atomic(step, ok);
    }
}

#[test]
fn write_atomic_replaces_existing_contents() {
    assert_eq!(run_write(None), (WriteStep::Done, "new", false));
    // A directory that cannot be flushed is no failure.
    assert_eq!(run_write(Some(WriteStep::SyncDir)), (WriteStep::Done, "new", false));
}

#[test]
fn interrupted_write_leaves_the_original_intact() {
    for step in
        [WriteStep::MakeDir, WriteStep::CreateTemp, WriteStep::FillTemp, WriteStep::Swap]
    {
        assert_eq!(run_write(Some(step)), (WriteStep::Failed, "old", false), "{step:?}");
    }
}
