//! Drafts from end to end, over a disk that is a map.

use std::cell::RefCell;
use std::collections::BTreeMap;
use std::rc::Rc;

use serde_json::Value;
use sotone_core::draft::error::DraftError;
use sotone_core::draft::handle::{
    is_plain_component, AUDIO_DIR, LINES_FILE, META_FILE, META_VERSION, TARGET_SAMPLE_RATE, Draft,
    DraftMeta, DraftStep, LinePlan,
};
use sotone_core::draft::log::{
    frame_record, is_settled, parse_lines, reposition, LogTail, ParsedLines,
};
use sotone_core::draft::plan::{MovedLine, NewLine};
use sotone_core::draft::record::{
    classify, not_failed, EditRecord, LineRecord, LogEntry, MoveRecord, SessionRecord,
};
use sotone_core::draft::relocate::{
    copy_matches, is_cross_device, move_across_volumes, ClashChoice, MoveDecision, MoveFacts,
    MoveOptions, NoteMove, VolumeEvent, VolumeMove,
};
use sotone_core::draft::save::{
    binding_for, resolve_binding, LoadedDraft, SaveMode, SaveOptions, SavePlan, SaveReport,
    SessionDividers, Transcript,
};
use sotone_core::draft::search::{last_written, matching_lines, SearchTerm};
use sotone_core::draft::store::{
    default_drafts_dir, discard_age, discard_marker, drafts_dir_under, is_past_retention,
    trash_retention, DraftScan, DraftStore, FoundDraft, TrashEntry, TrashSweep, DISCARDED_MARKER,
};
use sotone_core::path::NotePath;
use sotone_core::savepath::first_free;
use sotone_core::stamp::Stamp;
use sotone_core::time::Duration;

// ---------------------------------------------------------------------------
// A disk
// ---------------------------------------------------------------------------

type Files = Rc<RefCell<BTreeMap<String, Vec<u8>>>>;

/// A place on the disk.
#[derive(Clone, Debug)]
struct At {
    disk: Files,
    path: NotePath,
}

impl At {
    fn path(&self) -> At {
        self.clone()
    }

    fn text(&self) -> String {
        self.path.text()
    }

    fn join<S: AsRef<str>>(&self, name: S) -> At {
        At { disk: self.disk.clone(), path: self.path.join(&NotePath::new(name.as_ref())) }
    }

    fn bare(&self, text: &str) -> At {
        self.elsewhere(&NotePath::new(text))
    }

    fn elsewhere(&self, path: &NotePath) -> At {
        At { disk: self.disk.clone(), path: path.clone() }
    }

    fn is_file(&self) -> bool {
        self.disk.borrow().contains_key(&self.text())
    }

    fn is_dir(&self) -> bool {
        let prefix = format!("{}/", self.text());
        self.disk.borrow().keys().any(|key| key.starts_with(&prefix))
    }

    fn is_there(&self) -> bool {
        self.is_file() || self.is_dir()
    }

    /// What is directly in a directory, the newest name first.
    fn entries(&self) -> Vec<At> {
        let prefix = format!("{}/", self.text());
        let mut names: Vec<String> = Vec::new();
        for key in self.disk.borrow().keys() {
            if let Some(rest) = key.strip_prefix(&prefix) {
                let name = rest.split('/').next().unwrap_or_default().to_owned();
                if !names.contains(&name) {
                    names.insert(0, name);
                }
            }
        }
        names.iter().map(|name| self.join(name)).collect()
    }

    fn ends_with(&self, tail: &str) -> bool {
        self.text().ends_with(tail)
    }
}

/// Anything that names a place.
trait Spot {
    fn spot(&self) -> &At;
}

impl Spot for At {
    fn spot(&self) -> &At {
        self
    }
}

impl<'a> Spot for &'a At {
    fn spot(&self) -> &At {
        self
    }
}

impl PartialEq for At {
    fn eq(&self, other: &At) -> bool {
        self.path == other.path
    }
}

impl PartialEq<At> for NotePath {
    fn eq(&self, other: &At) -> bool {
        *self == other.path
    }
}

impl<'a> PartialEq<At> for &'a NotePath {
    fn eq(&self, other: &At) -> bool {
        **self == other.path
    }
}

impl PartialEq<NotePath> for At {
    fn eq(&self, other: &NotePath) -> bool {
        self.path == *other
    }
}

fn fs_read<P: Spot>(at: P) -> Option<Vec<u8>> {
    let at = at.spot();
    at.disk.borrow().get(&at.text()).cloned()
}

fn fs_read_to_string<P: Spot>(at: P) -> Option<String> {
    fs_read(at).and_then(|bytes| String::from_utf8(bytes).ok())
}

fn fs_write<P: Spot, B: AsRef<[u8]>>(at: P, bytes: B) -> Option<()> {
    let at = at.spot();
    at.disk.borrow_mut().insert(at.text(), bytes.as_ref().to_vec());
    Some(())
}

fn fs_append<B: AsRef<[u8]>>(at: &At, bytes: B) -> Option<()> {
    let text = at.text();
    at.disk.borrow_mut().entry(text).or_default().extend_from_slice(bytes.as_ref());
    Some(())
}

/// A directory is there once something is in it.
fn fs_create_dir_all<P: Spot>(at: P) -> Option<()> {
    fs_write(at.spot().join(".keep"), b"")
}

fn fs_remove_file<P: Spot>(at: P) -> Option<()> {
    let at = at.spot();
    at.disk.borrow_mut().remove(&at.text()).map(|_| ())
}

fn fs_remove_dir(at: &At) {
    let prefix = format!("{}/", at.text());
    at.disk.borrow_mut().retain(|key, _| !key.starts_with(&prefix));
}

/// Moves a file, or everything under a directory.
fn fs_rename<P: Spot, Q: Spot>(from: P, to: Q) -> Option<()> {
    let (from, to) = (from.spot(), to.spot());
    let (old, new) = (from.text(), to.text());
    let prefix = format!("{old}/");
    let mut disk = from.disk.borrow_mut();
    let keys: Vec<String> =
        disk.keys().filter(|key| **key == old || key.starts_with(&prefix)).cloned().collect();
    for key in &keys {
        let bytes = disk.remove(key).unwrap_or_default();
        disk.insert(format!("{new}{}", &key[old.len()..]), bytes);
    }
    if keys.is_empty() {
        None
    } else {
        Some(())
    }
}

// ---------------------------------------------------------------------------
// Records as text
// ---------------------------------------------------------------------------

fn ts(text: &str) -> Stamp {
    stamp_of(chrono::DateTime::parse_from_rfc3339(text).expect("test timestamp"))
}

fn stamp_of(at: chrono::DateTime<chrono::FixedOffset>) -> Stamp {
    Stamp {
        secs: at.timestamp(),
        nanos: at.timestamp_subsec_nanos(),
        offset: at.offset().local_minus_utc(),
    }
}

fn stamp_text(at: Stamp) -> String {
    let offset = chrono::FixedOffset::east_opt(at.offset).expect("offset");
    let utc = chrono::DateTime::from_timestamp(at.secs, at.nanos).expect("moment");
    utc.with_timezone(&offset).to_rfc3339_opts(chrono::SecondsFormat::AutoSi, false)
}

fn put(map: &mut serde_json::Map<String, Value>, key: &str, value: Value) {
    map.insert(key.to_owned(), value);
}

fn opt<T>(value: &Option<T>, into: impl Fn(&T) -> Value) -> Value {
    value.as_ref().map_or(Value::Null, into)
}

fn text(value: &str) -> Value {
    Value::String(value.to_owned())
}

/// One record as one line of the log, without its newline.
fn encode(record: &LogEntry) -> Vec<u8> {
    let mut map = serde_json::Map::new();
    match record {
        LogEntry::Line(line) => {
            put(&mut map, "id", text(&line.id));
            put(&mut map, "spoken_at", text(&stamp_text(line.spoken_at)));
            put(&mut map, "text", text(&line.text));
            put(&mut map, "original", opt(&line.original, |t| text(t)));
            put(&mut map, "deleted", Value::Bool(line.deleted));
            put(&mut map, "audio", text(&line.audio));
            put(&mut map, "transcribe_ms", opt(&line.transcribe_ms, |ms| Value::from(*ms)));
            if !not_failed(&line.failed) {
                put(&mut map, "failed", Value::Bool(true));
            }
        }
        LogEntry::Edit(edit) => {
            put(&mut map, "edit_of", text(&edit.edit_of));
            put(&mut map, "at", text(&stamp_text(edit.at)));
            if let Some(t) = &edit.text {
                put(&mut map, "text", text(t));
            }
            if let Some(deleted) = edit.deleted {
                put(&mut map, "deleted", Value::Bool(deleted));
            }
            if let Some(ms) = edit.transcribe_ms {
                put(&mut map, "transcribe_ms", Value::from(ms));
            }
        }
        LogEntry::Move(moved) => {
            put(&mut map, "move_of", text(&moved.move_of));
            put(&mut map, "at", text(&stamp_text(moved.at)));
            put(&mut map, "after", opt(&moved.after, |t| text(t)));
        }
        LogEntry::Session(session) => {
            put(&mut map, "session_at", text(&stamp_text(session.session_at)));
        }
        LogEntry::Malformed => {}
    }
    serde_json::to_vec(&Value::Object(map)).expect("encode")
}

fn required(map: &serde_json::Map<String, Value>, key: &str) -> Option<String> {
    map.get(key)?.as_str().map(str::to_owned)
}

fn moment(map: &serde_json::Map<String, Value>, key: &str) -> Option<Stamp> {
    chrono::DateTime::parse_from_rfc3339(map.get(key)?.as_str()?).ok().map(stamp_of)
}

fn optional<T>(
    map: &serde_json::Map<String, Value>,
    key: &str,
    read: impl Fn(&Value) -> Option<T>,
) -> Option<Option<T>> {
    match map.get(key) {
        None | Some(Value::Null) => Some(None),
        Some(value) => read(value).map(Some),
    }
}

fn as_text(value: &Value) -> Option<String> {
    value.as_str().map(str::to_owned)
}

fn flag(map: &serde_json::Map<String, Value>, key: &str) -> Option<bool> {
    match map.get(key) {
        None => Some(false),
        Some(value) => value.as_bool(),
    }
}

fn line_in(map: &serde_json::Map<String, Value>) -> Option<LineRecord> {
    Some(LineRecord {
        id: required(map, "id")?,
        spoken_at: moment(map, "spoken_at")?,
        text: required(map, "text")?,
        original: optional(map, "original", as_text)?,
        deleted: flag(map, "deleted")?,
        audio: required(map, "audio")?,
        transcribe_ms: optional(map, "transcribe_ms", Value::as_u64)?,
        failed: flag(map, "failed")?,
    })
}

fn edit_in(map: &serde_json::Map<String, Value>) -> Option<EditRecord> {
    Some(EditRecord {
        edit_of: required(map, "edit_of")?,
        at: moment(map, "at")?,
        text: optional(map, "text", as_text)?,
        deleted: optional(map, "deleted", Value::as_bool)?,
        transcribe_ms: optional(map, "transcribe_ms", Value::as_u64)?,
    })
}

fn move_in(map: &serde_json::Map<String, Value>) -> Option<MoveRecord> {
    map.get("after")?;
    Some(MoveRecord {
        move_of: required(map, "move_of")?,
        at: moment(map, "at")?,
        after: optional(map, "after", as_text)?,
    })
}

fn session_in(map: &serde_json::Map<String, Value>) -> Option<SessionRecord> {
    Some(SessionRecord { session_at: moment(map, "session_at")? })
}

fn decode(piece: &str) -> LogEntry {
    match serde_json::from_str::<Value>(piece) {
        Ok(Value::Object(map)) => {
            classify(line_in(&map), edit_in(&map), move_in(&map), session_in(&map))
        }
        _ => LogEntry::Malformed,
    }
}

fn encode_meta(meta: &DraftMeta) -> Vec<u8> {
    let mut map = serde_json::Map::new();
    put(&mut map, "version", Value::from(meta.version));
    put(&mut map, "id", text(&meta.id));
    put(&mut map, "created_at", text(&stamp_text(meta.created_at)));
    put(&mut map, "project", opt(&meta.project, |t| text(t)));
    put(&mut map, "saved_path", opt(&meta.saved_path, |p| text(&p.text())));
    put(&mut map, "dirty", Value::Bool(meta.dirty));
    put(&mut map, "last_save_hash", opt(&meta.last_save_hash, |t| text(t)));
    serde_json::to_vec_pretty(&Value::Object(map)).expect("encode")
}

fn decode_meta(bytes: &[u8]) -> Option<DraftMeta> {
    let value = serde_json::from_slice::<Value>(bytes).ok()?;
    let map = value.as_object()?;
    Some(DraftMeta {
        version: u32::try_from(map.get("version")?.as_u64()?).ok()?,
        id: required(map, "id")?,
        created_at: moment(map, "created_at")?,
        project: optional(map, "project", as_text)?,
        saved_path: optional(map, "saved_path", as_text)?.map(|t| NotePath::new(&t)),
        dirty: flag(map, "dirty")?,
        last_save_hash: optional(map, "last_save_hash", as_text)?,
    })
}

// ---------------------------------------------------------------------------
// A store and its drafts
// ---------------------------------------------------------------------------

struct Store {
    root: At,
    inner: DraftStore,
}

#[derive(Debug)]
struct Note {
    place: At,
    inner: Draft,
}

#[derive(Debug)]
struct Renamed {
    from: At,
    to: At,
    moved: bool,
}

#[derive(Debug)]
struct Loaded {
    draft: Note,
    lines: Vec<LineRecord>,
    skipped_lines: usize,
}

fn disk() -> At {
    At { disk: Files::default(), path: NotePath::new("/tmp/t") }
}

fn store() -> (At, Store) {
    let tmp = disk();
    let root = tmp.join("drafts");
    let inner = DraftStore::new(root.path.clone());
    (tmp, Store { root, inner })
}

fn parsed_at(lines: &At) -> ParsedLines {
    parse_lines(&fs_read(lines).unwrap_or_default(), decode)
}

fn load(place: &At) -> Result<LoadedDraft, DraftError> {
    let meta_at = place.join(META_FILE);
    let missing = || DraftError::Missing { path: place.path.clone() };
    let bytes = fs_read(&meta_at).ok_or_else(missing)?;
    let meta = decode_meta(&bytes).ok_or_else(|| DraftError::BadMeta {
        path: meta_at.path.clone(),
        reason: "not the metadata of a draft".to_owned(),
    })?;
    let parsed = parsed_at(&place.join(LINES_FILE));
    Ok(Draft::open(place.path.clone(), meta, parsed))
}

fn open<P: Spot>(dir: P) -> Result<Loaded, DraftError> {
    let place = dir.spot().clone();
    let loaded = load(&place)?;
    Ok(Loaded {
        draft: Note { place, inner: loaded.draft },
        lines: loaded.lines,
        skipped_lines: loaded.skipped_lines,
    })
}

impl Store {
    fn create_draft(&self, project: Option<&str>) -> Result<Note, DraftError> {
        let inner = self.inner.create_draft(project);
        let note = Note { place: self.root.elsewhere(inner.dir()), inner };
        note.write_meta();
        fs_write(note.lines_path(), b"");
        Ok(note)
    }

    fn trash_dir(&self) -> At {
        self.root.elsewhere(&self.inner.trash_dir())
    }

    fn discard(&self, id: &str) -> Result<At, DraftError> {
        let dir = self.root.elsewhere(&self.inner.draft_path(id)?);
        let target = self.root.elsewhere(&self.inner.discard_target(id));
        let end = self.inner.discard(id, dir.is_dir(), target.is_there())?;
        let end = self.root.elsewhere(&end);
        fs_rename(&dir, &end);
        if let Some(marker) = discard_marker() {
            fs_write(end.join(DISCARDED_MARKER), marker);
        }
        Ok(end)
    }

    fn sweep_trash(&self, retention: Duration) -> Result<TrashSweep, DraftError> {
        let now = stamp_of(chrono::Local::now().fixed_offset());
        let entries = self
            .trash_dir()
            .entries()
            .iter()
            .map(|entry| TrashEntry {
                dir: entry.path.clone(),
                marker: fs_read_to_string(entry.join(DISCARDED_MARKER)),
                modified: None,
            })
            .collect();
        let plan = self.inner.sweep_trash(&entries, now, retention);
        for dir in &plan.remove {
            fs_remove_dir(&self.root.elsewhere(dir));
        }
        Ok(plan.done(plan.remove.len()))
    }

    fn list_drafts(&self) -> Result<DraftScan, DraftError> {
        let found = self
            .root
            .entries()
            .iter()
            .map(|dir| FoundDraft {
                name: dir.path.file_name().unwrap_or_default(),
                dir: dir.path.clone(),
                opened: load(dir),
            })
            .collect();
        Ok(self.inner.list_drafts(found))
    }

    fn line_audio_path(&self, draft_id: &str, line_id: &str) -> Result<At, DraftError> {
        Ok(self.root.elsewhere(&self.inner.line_audio_path(draft_id, line_id)?))
    }
}

impl Note {
    fn dir(&self) -> At {
        self.place.clone()
    }

    fn id(&self) -> &str {
        self.inner.id()
    }

    fn meta(&self) -> &DraftMeta {
        self.inner.meta()
    }

    fn dirty(&self) -> bool {
        self.inner.dirty()
    }

    fn line_count(&self) -> usize {
        self.inner.line_count()
    }

    fn project(&self) -> Option<&str> {
        self.inner.project()
    }

    fn saved_path(&self) -> Option<String> {
        self.inner.saved_path().map(NotePath::text)
    }

    fn lines_path(&self) -> At {
        self.place.elsewhere(&self.inner.lines_path())
    }

    fn meta_path(&self) -> At {
        self.place.elsewhere(&self.inner.meta_path())
    }

    fn write_meta(&self) {
        fs_write(self.meta_path(), encode_meta(&self.inner.meta));
    }

    fn parsed(&self) -> ParsedLines {
        parsed_at(&self.lines_path())
    }

    fn read_transcript(&self) -> Result<Transcript, DraftError> {
        let raw = fs_read(self.lines_path()).unwrap_or_default();
        Ok(self.inner.read_transcript(&raw, decode))
    }

    fn read_lines(&self) -> Result<Vec<LineRecord>, DraftError> {
        let raw = fs_read(self.lines_path()).unwrap_or_default();
        Ok(self.inner.read_lines(&raw, decode))
    }

    fn run(&mut self, steps: &[DraftStep]) {
        for step in steps {
            match step {
                DraftStep::NewFile { path, bytes } => {
                    let at = self.place.elsewhere(path);
                    assert!(!at.is_there(), "a new file is already there: {}", at.text());
                    fs_write(&at, bytes);
                    self.inner.after(step);
                }
                DraftStep::Append { record, .. } => {
                    let framed = frame_record(self.inner.needs_newline, &encode(record));
                    fs_append(&self.lines_path(), &framed);
                    self.inner.after(step);
                }
                DraftStep::Meta => {
                    self.inner.after(step);
                    self.write_meta();
                }
            }
        }
    }

    fn done(&mut self, plan: LinePlan) -> LineRecord {
        self.run(&plan.steps);
        plan.record
    }

    fn append_line(&mut self, new: NewLine) -> Result<LineRecord, DraftError> {
        let plan = self.inner.append_line(new)?;
        let record = self.done(plan);
        self.inner.appended(record.clone());
        Ok(record)
    }

    fn mark_session(&mut self) -> Result<(), DraftError> {
        let steps = self.inner.mark_session();
        self.run(&steps);
        Ok(())
    }

    fn edit_line(&mut self, id: &str, text: &str) -> Result<LineRecord, DraftError> {
        let plan = self.inner.edit_line(&self.parsed(), id, text)?;
        Ok(self.done(plan))
    }

    fn retranscribed_line(
        &mut self,
        id: &str,
        text: &str,
        ms: Option<u64>,
    ) -> Result<LineRecord, DraftError> {
        let plan = self.inner.retranscribed_line(&self.parsed(), id, text, ms)?;
        Ok(self.done(plan))
    }

    fn set_deleted(&mut self, id: &str, deleted: bool) -> Result<LineRecord, DraftError> {
        let plan = self.inner.set_deleted(&self.parsed(), id, deleted)?;
        Ok(self.done(plan))
    }

    fn move_line(&mut self, id: &str, after: Option<&str>) -> Result<Vec<LineRecord>, DraftError> {
        let plan = self.inner.move_line(self.parsed().lines, id, after)?;
        self.run(&plan.steps);
        Ok(plan.lines)
    }

    fn line_audio_path(&self, id: &str) -> Result<At, DraftError> {
        Ok(self.place.elsewhere(&self.inner.line_audio_path(id)?))
    }

    fn export_line(&self, id: &str) -> Result<MovedLine, DraftError> {
        let audio = self.line_audio_path(id).ok().and_then(fs_read);
        self.inner.export_line(&self.parsed(), id, audio)
    }

    fn import_line(&mut self, moved: &MovedLine, divide: bool) -> Result<LineRecord, DraftError> {
        let tail: LogTail = self.parsed().tail;
        let plan = self.inner.import_line(moved, divide, tail)?;
        Ok(self.done(plan))
    }

    fn preview_markdown(
        &self,
        header: Option<&str>,
        dividers: SessionDividers,
    ) -> Result<String, DraftError> {
        Ok(self.inner.preview_markdown(header, dividers, &self.read_transcript()?))
    }

    fn save_target(&self, first: &At, root: Option<&At>) -> Result<At, DraftError> {
        let target = self.inner.save_target(&first.path, root.map(|at| &at.path))?;
        Ok(self.place.elsewhere(&target))
    }

    fn resolved_saved_path(&self, root: Option<&At>) -> Option<At> {
        self.inner.resolved_saved_path(root.map(|at| &at.path)).map(|p| self.place.elsewhere(&p))
    }

    fn finish(&mut self, plan: SavePlan, root: Option<&At>, adopt: Option<&str>) -> SaveReport {
        let at = self.place.elsewhere(&plan.report.path);
        fs_write(&at, plan.markdown.as_bytes());
        self.inner.saved(&at.path, root.map(|at| &at.path), adopt, &plan.markdown);
        self.write_meta();
        plan.report
    }

    fn save_as(&mut self, path: &At, header: Option<&str>) -> Result<SaveReport, DraftError> {
        let existing = fs_read(path);
        let transcript = self.read_transcript()?;
        let plan = self.inner.save_as(&path.path, header, &transcript, existing.as_deref())?;
        Ok(self.finish(plan, None, None))
    }

    fn save_as_with(
        &mut self,
        path: &At,
        header: Option<&str>,
        mode: SaveMode,
        dividers: SessionDividers,
    ) -> Result<SaveReport, DraftError> {
        let existing = fs_read(path);
        let transcript = self.read_transcript()?;
        let plan = self.inner.save_as_with(
            &path.path,
            header,
            mode,
            dividers,
            &transcript,
            existing.as_deref(),
        )?;
        Ok(self.finish(plan, None, None))
    }

    fn save_to(&mut self, path: &At, opts: SaveOptions<'_>) -> Result<SaveReport, DraftError> {
        let existing = fs_read(path);
        let transcript = self.read_transcript()?;
        let plan = self.inner.save_to(&path.path, opts, &transcript, existing.as_deref())?;
        let root = opts.notes_root.map(|root| self.place.elsewhere(root));
        Ok(self.finish(plan, root.as_ref(), opts.adopt_project))
    }

    fn save(&mut self, header: Option<&str>) -> Result<SaveReport, DraftError> {
        let existing = match self.inner.save_path() {
            Ok(path) => fs_read(self.place.elsewhere(&path)),
            Err(_) => None,
        };
        let transcript = self.read_transcript()?;
        let plan = self.inner.save(header, &transcript, existing.as_deref())?;
        Ok(self.finish(plan, None, None))
    }

    fn save_with(
        &mut self,
        header: Option<&str>,
        mode: SaveMode,
        dividers: SessionDividers,
    ) -> Result<SaveReport, DraftError> {
        let existing = match self.inner.save_path() {
            Ok(path) => fs_read(self.place.elsewhere(&path)),
            Err(_) => None,
        };
        let transcript = self.read_transcript()?;
        let plan = self.inner.save_with(
            header,
            mode,
            dividers,
            &transcript,
            existing.as_deref(),
        )?;
        Ok(self.finish(plan, None, None))
    }

    fn rename_note(&mut self, name: &str, root: Option<&At>) -> Result<Renamed, DraftError> {
        let root = root.map(|at| &at.path);
        let (_, to) = self.inner.rename_target(name, root)?;
        let exists = self.place.elsewhere(&to).is_there();
        let report = self.inner.rename_note(name, root, exists, false)?;
        if report.moved {
            fs_rename(self.place.elsewhere(&report.from), self.place.elsewhere(&report.to));
            self.inner.renamed_to(&report.to, root);
            self.write_meta();
        }
        Ok(Renamed {
            from: self.place.elsewhere(&report.from),
            to: self.place.elsewhere(&report.to),
            moved: report.moved,
        })
    }

    fn set_project(&mut self, project: Option<&str>) -> Result<bool, DraftError> {
        let changed = self.inner.set_project(project);
        if changed {
            self.write_meta();
        }
        Ok(changed)
    }

    fn reassign_project(
        &mut self,
        project: Option<&str>,
        old_root: Option<&At>,
        new_root: Option<&At>,
    ) -> Result<bool, DraftError> {
        let changed = self.inner.reassign_project(
            project,
            old_root.map(|at| &at.path),
            new_root.map(|at| &at.path),
        );
        if changed {
            self.write_meta();
        }
        Ok(changed)
    }

    fn move_to_project(&mut self, opts: MoveOptions<'_>) -> Result<NoteMove, DraftError> {
        let mut facts = MoveFacts {
            source_exists: false,
            same_file: false,
            target_exists: false,
            free: None,
        };
        if let (Some(probe), Some(root)) = (self.inner.move_probe(&opts), opts.new_root) {
            let there = |path: &NotePath| self.place.elsewhere(path).is_there();
            facts.source_exists = probe.source.as_ref().is_some_and(there);
            facts.target_exists = there(&probe.to);
            facts.same_file = probe.source.as_ref() == Some(&probe.to);
            facts.free = first_free(root, &probe.file, |path: &NotePath| there(path));
        }
        match self.inner.move_to_project(&opts, facts)? {
            MoveDecision::Unchanged => Ok(NoteMove::Unchanged),
            MoveDecision::Retag => {
                self.inner.reassign_project(opts.project, opts.old_root, opts.new_root);
                self.write_meta();
                Ok(NoteMove::Retagged)
            }
            MoveDecision::Clash { at, free } => Ok(NoteMove::Clash { at, free }),
            MoveDecision::Move { from, to } => {
                fs_rename(self.place.elsewhere(&from), self.place.elsewhere(&to));
                let root = opts.new_root.expect("a file only moves into a folder");
                self.inner.moved_to(opts.project, &to, root);
                self.write_meta();
                Ok(NoteMove::Moved { from, to, copied: false })
            }
            MoveDecision::Recreate { to } => {
                self.inner.begin_recreate(opts.project);
                let transcript = self.read_transcript()?;
                let save = SaveOptions {
                    header: opts.header,
                    dividers: opts.dividers,
                    notes_root: opts.new_root,
                    ..SaveOptions::default()
                };
                let plan = self.inner.save_to(&to, save, &transcript, None)?;
                let root = opts.new_root.map(|path| self.place.elsewhere(path));
                self.finish(plan, root.as_ref(), None);
                Ok(NoteMove::Recreated { to })
            }
        }
    }
}

// ---------------------------------------------------------------------------
// Shorthand
// ---------------------------------------------------------------------------

fn hex(bytes: &[u8]) -> String {
    blake3::hash(bytes).to_hex().to_string()
}

fn rel(text: &str) -> NotePath {
    NotePath::new(text)
}

fn pcm(samples: &[f32]) -> Vec<i16> {
    samples
        .iter()
        .map(|s| (s.clamp(-1.0, 1.0) * f32::from(i16::MAX)).round() as i16)
        .collect()
}

fn append(draft: &mut Note, text: &str, at: &str, samples: &[f32]) -> LineRecord {
    draft
        .append_line(NewLine {
            text: text.to_owned(),
            spoken_at: ts(at),
            samples: pcm(samples),
            transcribe_ms: Some(42),
            failed: false,
        })
        .expect("append")
}

/// The line a transcribe failure writes: no words, the audio kept, and
/// `transcribe_ms` unset because nothing was measured.
fn append_failed(draft: &mut Note, at: &str, samples: &[f32]) -> LineRecord {
    draft
        .append_line(NewLine {
            text: String::new(),
            spoken_at: ts(at),
            samples: pcm(samples),
            transcribe_ms: None,
            failed: true,
        })
        .expect("append")
}

fn save_in(draft: &mut Note, root: &At, first_save: &At, adopt: Option<&str>) -> SaveReport {
    let target = draft.save_target(first_save, Some(root)).expect("a resolvable target");
    let opts = SaveOptions {
        notes_root: Some(&root.path),
        adopt_project: adopt,
        ..SaveOptions::default()
    };
    draft.save_to(&target, opts).expect("save")
}

fn drop_into<'a>(old_root: &'a At, new_root: &'a At, project: &'a str) -> MoveOptions<'a> {
    MoveOptions {
        project: Some(project),
        old_root: Some(&old_root.path),
        new_root: Some(&new_root.path),
        ..MoveOptions::default()
    }
}

fn order_of(draft: &Note) -> Vec<String> {
    draft.read_lines().expect("read").into_iter().map(|line| line.id).collect()
}

fn three_lines(draft: &mut Note) -> (String, String, String) {
    let a = append(draft, "first", "2026-08-05T10:00:00+02:00", &[0.1]);
    let b = append(draft, "second", "2026-08-05T10:00:05+02:00", &[0.1]);
    let c = append(draft, "third", "2026-08-05T10:00:09+02:00", &[0.1]);
    (a.id, b.id, c.id)
}

fn two_drafts() -> (At, Store, Note, Note) {
    let (tmp, store) = store();
    let from = store.create_draft(Some("playtest")).expect("create source");
    let into = store.create_draft(Some("playtest")).expect("create destination");
    (tmp, store, from, into)
}

fn only_line(draft: &Note) -> LineRecord {
    let mut lines = open(draft.dir()).expect("reopen").lines;
    assert_eq!(lines.len(), 1, "expected exactly one line: {lines:?}");
    lines.remove(0)
}

/// What shape each record of the log has, in file order.
fn shapes(draft: &Note) -> Vec<&'static str> {
    let raw = fs_read_to_string(draft.lines_path()).expect("read log");
    raw.lines()
        .filter(|line| !line.trim().is_empty())
        .map(|line| match decode(line) {
            LogEntry::Line(_) => "line",
            LogEntry::Edit(_) => "edit",
            LogEntry::Move(_) => "move",
            LogEntry::Session(_) => "marker",
            LogEntry::Malformed => "junk",
        })
        .collect()
}

fn move_batch(from: &mut Note, into: &mut Note, ids: &[&str]) {
    for (at, id) in ids.iter().enumerate() {
        let moved = from.export_line(id).expect("export");
        into.import_line(&moved, at == 0).expect("import");
    }
}

fn sessions_of(draft: &Note) -> Vec<usize> {
    draft.read_transcript().expect("read").sessions
}

fn line(id: &str, at: &str, text: &str) -> LineRecord {
    LineRecord {
        id: id.to_owned(),
        spoken_at: ts(at),
        text: text.to_owned(),
        original: None,
        deleted: false,
        audio: format!("{AUDIO_DIR}/{id}.wav"),
        transcribe_ms: None,
        failed: false,
    }
}

#[test]
fn appended_lines_reload_identically() {
    let (_tmp, store) = store();
    let mut draft = store.create_draft(Some("demo")).expect("create");
    let dir = draft.dir().clone();

    let written = vec![
        append(
            &mut draft,
            "first finding",
            "2026-08-03T10:00:00+02:00",
            &[0.1],
        ),
        append(
            &mut draft,
            "second",
            "2026-08-03T10:00:05+02:00",
            &[-0.2, 0.2],
        ),
        append(
            &mut draft,
            "third",
            "2026-08-03T10:00:09.5+02:00",
            &[0.0; 8],
        ),
    ];

    let loaded = open(&dir).expect("open");

    assert_eq!(loaded.lines, written);
    assert_eq!(loaded.skipped_lines, 0);
    assert_eq!(loaded.draft.meta().project.as_deref(), Some("demo"));
}

#[test]
fn each_line_gets_a_readable_16k_mono_wav() {
    let (_tmp, store) = store();
    let mut draft = store.create_draft(None).expect("create");

    let samples: Vec<f32> = (0..1000).map(|i| (i as f32 / 500.0) - 1.0).collect();
    let record = append(&mut draft, "spoken", "2026-08-03T10:00:00+02:00", &samples);

    let path = draft.dir().join(&record.audio);
    assert!(path.is_file(), "wav missing at {}", path.text());

    let mut reader = hound::WavReader::new(std::io::Cursor::new(fs_read(&path).expect("wav"))).expect("open wav");
    let spec = reader.spec();
    assert_eq!(spec.channels, 1);
    assert_eq!(spec.sample_rate, TARGET_SAMPLE_RATE);
    assert_eq!(spec.bits_per_sample, 16);
    assert_eq!(spec.sample_format, hound::SampleFormat::Int);

    let read: Vec<i16> = reader
        .samples::<i16>()
        .collect::<Result<_, _>>()
        .expect("read samples");
    assert_eq!(read.len(), samples.len());

    for (original, stored) in samples.iter().zip(&read) {
        let back = f32::from(*stored) / f32::from(i16::MAX);
        assert!(
            (back - original).abs() <= 2.0 / f32::from(i16::MAX),
            "expected {original}, read back {back}"
        );
    }
}

#[test]
fn empty_samples_produce_a_valid_empty_wav() {
    let (_tmp, store) = store();
    let mut draft = store.create_draft(None).expect("create");

    let record = append(&mut draft, "silence", "2026-08-03T10:00:00+02:00", &[]);

    let path = draft.dir().join(&record.audio);
    let reader = hound::WavReader::new(std::io::Cursor::new(fs_read(&path).expect("wav"))).expect("open wav");
    assert_eq!(reader.len(), 0);

    let loaded = open(draft.dir()).expect("open");
    assert_eq!(loaded.lines, vec![record]);
    assert_eq!(loaded.skipped_lines, 0);
}

#[test]
fn meta_round_trips_and_the_first_append_marks_it_dirty() {
    let (_tmp, store) = store();
    let mut draft = store.create_draft(Some("playtest")).expect("create");
    let dir = draft.dir().clone();

    let fresh = open(&dir).expect("open fresh");
    assert!(!fresh.draft.meta().dirty);
    assert_eq!(fresh.draft.meta().version, META_VERSION);
    assert_eq!(fresh.draft.meta().id, draft.id());
    assert!(fresh.draft.meta().saved_path.is_none());
    assert!(fresh.draft.meta().last_save_hash.is_none());
    assert!(fresh.lines.is_empty());

    append(&mut draft, "a finding", "2026-08-03T10:00:00+02:00", &[0.1]);

    let after = open(&dir).expect("open after");
    assert!(after.draft.meta().dirty);
    assert_eq!(after.draft.meta().created_at, fresh.draft.meta().created_at);
}

#[test]
fn listing_is_sorted_by_id_and_counts_only_live_lines() {
    let (_tmp, store) = store();

    let first = store.create_draft(None).expect("first");
    let second = store.create_draft(None).expect("second");

    // Ulids are monotonic enough here that creation order is id order.
    let mut ids = vec![first.id().to_owned(), second.id().to_owned()];
    ids.sort();

    let scan = store.list_drafts().expect("list");
    let listed: Vec<String> = scan.drafts.iter().map(|d| d.id.clone()).collect();
    assert_eq!(listed, ids);
    assert!(scan.drafts.iter().all(|d| d.line_count == 0));
}

#[test]
fn discarding_moves_the_draft_into_trash_and_out_of_the_list() {
    let (_tmp, store) = store();
    let mut kept = store.create_draft(None).expect("kept");
    append(&mut kept, "stays", "2026-08-04T10:00:00+02:00", &[0.1]);
    let mut going = store.create_draft(Some("demo")).expect("going");
    append(&mut going, "goes", "2026-08-04T10:00:01+02:00", &[0.1]);
    let id = going.id().to_owned();
    let dir = going.dir().clone();
    // The handle must be gone before the rename; that ordering is the
    // worker's job in the app, and this test states it.
    drop(going);

    let trashed = store.discard(&id).expect("discard");

    assert!(!dir.is_there(), "the draft directory was left behind");
    assert_eq!(trashed, store.trash_dir().join(&id));
    // Nothing was destroyed: the line and its audio are one directory over.
    let moved = open(&trashed).expect("open the trashed draft");
    assert_eq!(moved.lines.len(), 1);
    assert_eq!(moved.lines[0].text, "goes");
    assert!(trashed.join(&moved.lines[0].audio).is_file());

    let scan = store.list_drafts().expect("list");
    let ids: Vec<&str> = scan.drafts.iter().map(|d| d.id.as_str()).collect();
    assert_eq!(ids, vec![kept.id()]);
    assert!(scan.rejected.is_empty(), "{:?}", scan.rejected);
}

#[test]
fn the_trash_directory_is_never_listed_as_a_draft() {
    let (_tmp, store) = store();
    let draft = store.create_draft(None).expect("create");
    let id = draft.id().to_owned();
    drop(draft);
    store.discard(&id).expect("discard");

    // `.trash` is a directory under the root with no meta.json in it; the
    // dot-skip is the only thing keeping it out of `rejected`.
    assert!(store.trash_dir().is_dir());
    let scan = store.list_drafts().expect("list");
    assert!(scan.drafts.is_empty());
    assert!(scan.rejected.is_empty(), "{:?}", scan.rejected);
}

#[test]
fn discard_refuses_traversal_and_unknown_ids() {
    let (_tmp, store) = store();
    store.create_draft(None).expect("create");

    // Forward slashes and the dot forms are separators on every platform we
    // build for; backslash is Windows-only and is left to the OS's own
    // component parsing rather than asserted here.
    for id in [
        "",
        ".",
        "..",
        ".trash",
        "../escape",
        "nested/draft",
        "/absolute",
    ] {
        match store.discard(id) {
            Err(DraftError::BadId { .. }) => {}
            other => panic!("{id:?} was not rejected as a bad id: {other:?}"),
        }
    }

    // Well-formed, but there is no such draft.
    let err = store.discard("01JNOSUCHDRAFT").expect_err("missing");
    assert!(matches!(err, DraftError::Missing { .. }), "{err:?}");
}

#[test]
fn a_resumed_draft_keeps_counting_from_where_it_stopped() {
    let (_tmp, store) = store();
    let mut draft = store.create_draft(None).expect("create");
    assert_eq!(draft.line_count(), 0);
    for _ in 0..7 {
        append(&mut draft, "line", "2026-08-04T10:00:00+02:00", &[0.1]);
    }
    assert_eq!(draft.line_count(), 7);
    let dir = draft.dir().clone();
    drop(draft);

    let reopened = open(&dir).expect("reopen");
    assert_eq!(reopened.draft.line_count(), 7);
    let mut reopened = reopened.draft;
    append(&mut reopened, "eighth", "2026-08-04T10:01:00+02:00", &[0.1]);
    assert_eq!(reopened.line_count(), 8);
}

#[test]
fn save_without_a_saved_path_says_so_instead_of_guessing() {
    let (_tmp, store) = store();
    let mut draft = store.create_draft(None).expect("create");
    append(&mut draft, "line", "2026-08-04T14:32:07+02:00", &[0.1]);

    let err = draft.save(None).expect_err("never saved");
    match &err {
        DraftError::NeverSaved { path } => assert_eq!(path, draft.dir()),
        other => panic!("expected NeverSaved, got {other:?}"),
    }
}

#[test]
fn a_save_inside_the_notes_folder_is_bound_relative_to_it() {
    let (tmp, store) = store();
    let mut draft = store.create_draft(None).expect("create");
    append(&mut draft, "a finding", "2026-08-07T14:32:07+02:00", &[0.1]);

    let root = tmp.path().join("notes");
    let first = root.join("Ludo 2026-08-07.md");
    let report = save_in(&mut draft, &root, &first, None);

    assert_eq!(report.path, first, "the file itself is written absolutely");
    assert_eq!(
        draft.saved_path(),
        Some("Ludo 2026-08-07.md".to_owned()),
        "the binding is stored relative to the notes folder"
    );
    assert_eq!(
        draft.resolved_saved_path(Some(&root)),
        Some(first.clone()),
        "and resolves back to the same file"
    );
    assert!(first.is_file());
}

#[test]
fn a_target_outside_the_notes_folder_stays_absolute() {
    // Should not happen — the target always comes from the project
    // — but a binding must never be *corrupted* into a relative path that
    // points at a different file.
    let (tmp, store) = store();
    let mut draft = store.create_draft(None).expect("create");
    append(&mut draft, "a finding", "2026-08-07T14:32:07+02:00", &[0.1]);

    let root = tmp.path().join("notes");
    let elsewhere = tmp.path().join("elsewhere").join("note.md");
    let report = save_in(&mut draft, &root, &elsewhere, None);

    assert_eq!(report.path, elsewhere);
    assert_eq!(draft.saved_path(), Some(elsewhere.text()));
}

#[test]
fn a_relative_binding_with_no_project_is_an_error_naming_the_draft() {
    let (tmp, store) = store();
    let mut draft = store.create_draft(None).expect("create");
    append(&mut draft, "a finding", "2026-08-07T14:32:07+02:00", &[0.1]);

    let root = tmp.path().join("notes");
    save_in(&mut draft, &root, &root.join("note.md"), None);

    // The project has been removed from the config: there is nothing to
    // resolve against, and the save must say so rather than write into the
    // process's working directory.
    let err = draft
        .save_target(&tmp.bare("first.md"), None)
        .expect_err("unresolvable");
    match &err {
        DraftError::UnresolvedPath { path, relative } => {
            assert_eq!(path, draft.dir());
            assert_eq!(relative, &rel("note.md"));
        }
        other => panic!("expected UnresolvedPath, got {other:?}"),
    }
    assert!(err.message().contains("note.md"), "{err:?}");
    // The display side is a blank, not an error: a tooltip has nothing true
    // to say about a path it cannot resolve.
    assert_eq!(draft.resolved_saved_path(None), None);
}

#[test]
fn renaming_a_note_moves_the_file_and_keeps_the_binding_relative() {
    let (tmp, store) = store();
    let mut draft = store.create_draft(Some("Ludo")).expect("create");
    append(&mut draft, "a finding", "2026-08-14T14:32:07+02:00", &[0.1]);

    let root = tmp.path().join("notes");
    save_in(&mut draft, &root, &root.join("Ludo 2026-08-14.md"), None);

    let report = draft
        .rename_note("checkout rebuild", Some(&root))
        .expect("rename");

    assert!(report.moved);
    assert_eq!(report.from, root.join("Ludo 2026-08-14.md"));
    assert_eq!(report.to, root.join("checkout rebuild.md"));
    assert!(report.to.is_file(), "the renamed file is not there");
    assert!(!report.from.is_there(), "the old name survived the rename");
    assert_eq!(
        draft.saved_path(),
        Some("checkout rebuild.md".to_owned()),
        "a target inside the notes folder stays a relative binding"
    );
    // And it is on disk, not just on the handle.
    let reloaded = open(draft.dir()).expect("reopen");
    assert_eq!(
        reloaded.draft.saved_path(),
        Some("checkout rebuild.md".to_owned())
    );
}

#[test]
fn renaming_a_note_bound_outside_the_notes_folder_stays_absolute() {
    let (tmp, store) = store();
    let mut draft = store.create_draft(None).expect("create");
    append(&mut draft, "a finding", "2026-08-14T14:32:07+02:00", &[0.1]);

    let root = tmp.path().join("notes");
    let elsewhere = tmp.path().join("elsewhere");
    save_in(&mut draft, &root, &elsewhere.join("note.md"), None);
    assert_eq!(
        draft.saved_path(),
        Some(elsewhere.join("note.md").text())
    );

    let report = draft
        .rename_note("moved out here", Some(&root))
        .expect("rename");

    assert_eq!(report.to, elsewhere.join("moved out here.md"));
    assert!(report.to.is_file());
    assert_eq!(
        draft.saved_path(),
        Some(elsewhere.join("moved out here.md").text()),
        "a binding outside the notes folder is never corrupted into a relative one"
    );
}

#[test]
fn a_rename_to_the_same_name_writes_nothing() {
    let (tmp, store) = store();
    let mut draft = store.create_draft(None).expect("create");
    append(&mut draft, "a finding", "2026-08-14T14:32:07+02:00", &[0.1]);

    let root = tmp.path().join("notes");
    save_in(&mut draft, &root, &root.join("same.md"), None);

    // Both spellings of "no change": with the extension and without it.
    for name in ["same", "same.md"] {
        let report = draft.rename_note(name, Some(&root)).expect("rename");
        assert!(!report.moved, "{name} was treated as a move");
        assert_eq!(report.from, report.to);
        assert!(root.join("same.md").is_file());
        assert_eq!(draft.saved_path(), Some("same.md".to_owned()));
    }
}

#[test]
fn renaming_refuses_an_unbound_or_unresolvable_note() {
    let (tmp, store) = store();
    let root = tmp.path().join("notes");

    // Never saved: there is no file to rename and nothing to guess.
    let mut fresh = store.create_draft(None).expect("create");
    append(&mut fresh, "a finding", "2026-08-14T14:32:07+02:00", &[0.1]);
    let err = fresh
        .rename_note("anything", Some(&root))
        .expect_err("unbound");
    assert!(matches!(err, DraftError::NeverSaved { .. }), "{err:?}");

    // Bound relative, with the project gone from the config: refused rather
    // than renamed relative to the process's working directory.
    let mut bound = store.create_draft(None).expect("create");
    append(&mut bound, "a finding", "2026-08-14T14:32:07+02:00", &[0.1]);
    save_in(&mut bound, &root, &root.join("note.md"), None);
    let err = bound
        .rename_note("anything", None)
        .expect_err("unresolvable");
    match &err {
        DraftError::UnresolvedPath { path, relative } => {
            assert_eq!(path, bound.dir());
            assert_eq!(relative, &rel("note.md"));
        }
        other => panic!("expected UnresolvedPath, got {other:?}"),
    }
    assert!(root.join("note.md").is_file(), "the note moved anyway");
}

#[test]
fn reassigning_turns_a_relative_binding_absolute_and_the_file_stays_put() {
    let (tmp, store) = store();
    let mut draft = store.create_draft(Some("Ludo")).expect("create");
    append(&mut draft, "a finding", "2026-08-15T14:32:07+02:00", &[0.1]);

    let ludo = tmp.path().join("Ludo");
    let backlog = tmp.path().join("Backlog");
    save_in(&mut draft, &ludo, &ludo.join("session 1.md"), None);
    assert_eq!(draft.saved_path(), Some("session 1.md".to_owned()));

    assert!(draft
        .reassign_project(Some("Backlog"), Some(&ludo), Some(&backlog))
        .expect("reassign"));

    assert_eq!(draft.project(), Some("Backlog"));
    assert_eq!(
        draft.saved_path(),
        Some(ludo.join("session 1.md").text()),
        "the binding must name where the file actually is, not the new \
         project's folder"
    );
    assert!(
        ludo.join("session 1.md").is_file(),
        "the note's file moved on disk"
    );
    assert!(
        !backlog.join("session 1.md").is_there(),
        "something was created in the new project's folder"
    );

    // On disk, and in one write: reopening finds both fields moved.
    let reloaded = open(draft.dir()).expect("reopen");
    assert_eq!(reloaded.draft.project(), Some("Backlog"));
    assert_eq!(
        reloaded.draft.saved_path(),
        Some(ludo.join("session 1.md").text())
    );

    // And the save that follows rewrites the same file, in the old folder.
    append(&mut draft, "another", "2026-08-15T14:40:00+02:00", &[0.1]);
    let report = save_in(&mut draft, &backlog, &tmp.bare("unused.md"), None);
    assert_eq!(report.path, ludo.join("session 1.md"));
}

#[test]
fn reassigning_re_relativizes_a_note_that_lies_inside_the_new_folder() {
    // The other direction: the file happens to sit inside the project it is
    // being moved to, so the binding becomes relative to *that* folder and
    // the note rides a later folder move like any other.
    let (tmp, store) = store();
    let mut draft = store.create_draft(Some("Ludo")).expect("create");
    append(&mut draft, "a finding", "2026-08-15T14:32:07+02:00", &[0.1]);

    let ludo = tmp.path().join("Ludo");
    let backlog = tmp.path().join("Backlog");
    // Bound absolute, inside Backlog's folder, while it still belongs to
    // Ludo — the shape a hand-edited config or a moved note leaves.
    save_in(&mut draft, &ludo, &backlog.join("note.md"), None);
    assert_eq!(draft.saved_path(), Some(backlog.join("note.md").text()));

    assert!(draft
        .reassign_project(Some("Backlog"), Some(&ludo), Some(&backlog))
        .expect("reassign"));

    assert_eq!(
        draft.saved_path(),
        Some("note.md".to_owned()),
        "a file inside the new project's folder is bound relative to it"
    );
    assert!(backlog.join("note.md").is_file());
}

#[test]
fn reassigning_an_unbound_draft_writes_only_the_project() {
    let (_tmp, store) = store();
    let mut draft = store.create_draft(Some("Ludo")).expect("create");
    append(&mut draft, "a finding", "2026-08-15T14:32:07+02:00", &[0.1]);
    assert_eq!(draft.saved_path(), None);

    assert!(draft
        .reassign_project(None, None, None)
        .expect("reassign to no project"));
    assert_eq!(draft.project(), None);
    assert_eq!(draft.saved_path(), None, "a binding was invented");

    // A second pass over an already-filed draft writes nothing.
    assert!(!draft.reassign_project(None, None, None).expect("no-op"));
}

#[test]
fn reassigning_out_of_a_missing_project_carries_an_unresolvable_binding() {
    // The repair case: the draft names a project the config no longer has,
    // so its relative binding cannot be resolved at all. Dragging it into a
    // real project must not be refused — it is how the user fixes it — and
    // the binding is carried across untouched rather than guessed at.
    let (tmp, store) = store();
    let mut draft = store.create_draft(Some("Gone")).expect("create");
    append(&mut draft, "a finding", "2026-08-15T14:32:07+02:00", &[0.1]);

    let gone = tmp.path().join("Gone");
    save_in(&mut draft, &gone, &gone.join("note.md"), None);
    assert_eq!(draft.saved_path(), Some("note.md".to_owned()));

    let backlog = tmp.path().join("Backlog");
    assert!(draft
        .reassign_project(Some("Backlog"), None, Some(&backlog))
        .expect("reassign"));

    assert_eq!(draft.project(), Some("Backlog"));
    assert_eq!(
        draft.saved_path(),
        Some("note.md".to_owned()),
        "an unresolvable binding must be carried, never re-derived from a \
         root it was never relative to"
    );
    assert!(gone.join("note.md").is_file(), "the file moved");
}

#[test]
fn an_unbound_draft_and_a_drop_into_no_project_only_retag() {
    // There is nothing to move in either case, so nothing on disk moves.
    let (tmp, store) = store();
    let ludo = tmp.path().join("Ludo");
    let backlog = tmp.path().join("Backlog");

    let mut unsaved = store.create_draft(Some("Ludo")).expect("create");
    append(
        &mut unsaved,
        "a finding",
        "2026-08-19T14:32:07+02:00",
        &[0.1],
    );
    assert_eq!(
        unsaved
            .move_to_project(drop_into(&ludo, &backlog, "Backlog"))
            .expect("retag"),
        NoteMove::Retagged
    );
    assert_eq!(unsaved.project(), Some("Backlog"));
    assert_eq!(unsaved.saved_path(), None, "a binding was invented");
    assert!(!backlog.is_there(), "the target folder was created anyway");

    // And out of every project: there is no folder to move into.
    let mut bound = store.create_draft(Some("Ludo")).expect("create");
    append(&mut bound, "a finding", "2026-08-19T14:32:07+02:00", &[0.1]);
    save_in(&mut bound, &ludo, &ludo.join("session 1.md"), None);
    assert_eq!(
        bound
            .move_to_project(MoveOptions {
                project: None,
                old_root: Some(&ludo.path),
                new_root: None,
                ..MoveOptions::default()
            })
            .expect("retag"),
        NoteMove::Retagged
    );
    assert_eq!(bound.project(), None);
    assert!(
        ludo.join("session 1.md").is_file(),
        "the file moved with no folder to move it to"
    );
    assert_eq!(
        bound.saved_path(),
        Some(ludo.join("session 1.md").text()),
        "the binding must name where the file actually is"
    );
}

#[test]
fn dropping_a_note_into_the_folder_it_is_already_in_moves_no_file() {
    // Two projects sharing one folder. `fs_rename` onto itself is not a
    // gesture worth risking, and there is nothing to move.
    let (tmp, store) = store();
    let shared = tmp.path().join("shared");
    let mut draft = store.create_draft(Some("Ludo")).expect("create");
    append(&mut draft, "a finding", "2026-08-19T14:32:07+02:00", &[0.1]);
    save_in(&mut draft, &shared, &shared.join("session 1.md"), None);

    assert_eq!(
        draft
            .move_to_project(drop_into(&shared, &shared, "Backlog"))
            .expect("retag"),
        NoteMove::Retagged
    );
    assert_eq!(draft.project(), Some("Backlog"));
    assert_eq!(draft.saved_path(), Some("session 1.md".to_owned()));
    assert!(shared.join("session 1.md").is_file());
}

#[test]
fn a_drop_onto_the_project_a_note_is_already_in_writes_nothing() {
    let (tmp, store) = store();
    let ludo = tmp.path().join("Ludo");
    let mut draft = store.create_draft(Some("Ludo")).expect("create");
    append(&mut draft, "a finding", "2026-08-19T14:32:07+02:00", &[0.1]);
    save_in(&mut draft, &ludo, &ludo.join("session 1.md"), None);

    assert_eq!(
        draft
            .move_to_project(drop_into(&ludo, &ludo, "Ludo"))
            .expect("no-op"),
        NoteMove::Unchanged
    );
}

#[test]
fn a_save_adopts_a_projectless_draft_and_never_reassigns_one() {
    let (tmp, store) = store();
    let root = tmp.path().join("notes");

    // Dictated before any project existed: the save adopts it.
    let mut orphan = store.create_draft(None).expect("create");
    append(
        &mut orphan,
        "a finding",
        "2026-08-07T14:32:07+02:00",
        &[0.1],
    );
    assert_eq!(orphan.meta().project, None);
    save_in(&mut orphan, &root, &root.join("orphan.md"), Some("Ludo"));
    assert_eq!(orphan.meta().project.as_deref(), Some("Ludo"));
    // And it is on disk, in the same write as the binding.
    let reloaded = open(orphan.dir()).expect("reopen");
    assert_eq!(reloaded.draft.meta().project.as_deref(), Some("Ludo"));

    // A draft that already belongs somewhere is never moved by a save.
    let mut owned = store.create_draft(Some("Spreadsheet")).expect("create");
    append(&mut owned, "a finding", "2026-08-07T14:32:07+02:00", &[0.1]);
    save_in(&mut owned, &root, &root.join("owned.md"), Some("Ludo"));
    assert_eq!(owned.meta().project.as_deref(), Some("Spreadsheet"));

    // No adoption offered, no project invented.
    let mut still_none = store.create_draft(None).expect("create");
    append(
        &mut still_none,
        "a finding",
        "2026-08-07T14:32:07+02:00",
        &[0.1],
    );
    save_in(&mut still_none, &root, &root.join("none.md"), None);
    assert_eq!(still_none.meta().project, None);
}

#[test]
fn editing_back_to_the_spoken_text_clears_original() {
    // The Undo path: reverting a line must leave it indistinguishable from
    // one that was never touched, even though two edits are on disk.
    let (_tmp, store) = store();
    let mut draft = store.create_draft(None).expect("create");
    let spoken = append(&mut draft, "as spoken", "2026-08-05T10:00:00+02:00", &[0.1]);

    draft.edit_line(&spoken.id, "as tidied").expect("edit");
    let reverted = draft.edit_line(&spoken.id, "as spoken").expect("revert");

    assert_eq!(reverted.text, "as spoken");
    assert!(reverted.original.is_none());
    let loaded = open(draft.dir()).expect("reopen");
    assert_eq!(loaded.lines[0].text, "as spoken");
    assert!(loaded.lines[0].original.is_none());
}

#[test]
fn an_edit_marks_the_draft_dirty_again() {
    let (tmp, store) = store();
    let mut draft = store.create_draft(None).expect("create");
    let line = append(&mut draft, "one", "2026-08-05T10:00:00+02:00", &[0.1]);
    draft
        .save_as(&tmp.path().join("notes.md"), None)
        .expect("save");
    assert!(!draft.dirty());

    draft.edit_line(&line.id, "one, tidied").expect("edit");

    assert!(draft.dirty());
    assert!(open(draft.dir()).expect("reopen").draft.meta().dirty);
}

#[test]
fn a_transcribe_ms_edit_records_the_duration_without_re_stamping_the_line() {
    let (_tmp, store) = store();
    let mut draft = store.create_draft(None).expect("create");
    let spoken = append(&mut draft, "mumbled", "2026-08-05T10:00:00+02:00", &[0.1]);

    let redone = draft
        .retranscribed_line(&spoken.id, "clear now", Some(730))
        .expect("retranscribe");

    assert_eq!(redone.text, "clear now");
    assert_eq!(redone.transcribe_ms, Some(730));
    let loaded = open(draft.dir()).expect("reopen");
    assert_eq!(loaded.lines[0].transcribe_ms, Some(730));
    assert_eq!(loaded.lines[0].original.as_deref(), Some("mumbled"));
}

#[test]
fn a_failed_line_is_written_with_no_words_and_all_of_its_audio() {
    let (_tmp, store) = store();
    let mut draft = store.create_draft(None).expect("create");
    let samples: Vec<f32> = (0..1_600).map(|i| ((i as f32) / 800.0) - 1.0).collect();
    let record = append_failed(&mut draft, "2026-08-12T10:00:00+02:00", &samples);

    assert!(record.failed);
    assert!(record.text.is_empty());
    assert_eq!(record.transcribe_ms, None);
    // The whole point: the wav is there, exactly as an ordinary line's is.
    let wav = draft.line_audio_path(&record.id).expect("path");
    assert!(wav.is_file(), "a failed line kept no audio");
    // And it is not in the note, because it has nothing to say yet.
    assert_eq!(draft.line_count(), 0);
    assert_eq!(
        draft
            .preview_markdown(None, SessionDividers::Shown)
            .unwrap(),
        ""
    );
}

#[test]
fn a_retry_that_produced_words_clears_the_failure_structurally() {
    // The fold rule: no second field on `EditRecord`, and no way for the
    // text and the state to disagree — a line with words is not failed.
    let (_tmp, store) = store();
    let mut draft = store.create_draft(None).expect("create");
    let record = append_failed(&mut draft, "2026-08-12T10:00:00+02:00", &[0.2]);

    let redone = draft
        .retranscribed_line(&record.id, "the fence has no collision", Some(310))
        .expect("retranscribe");
    assert!(!redone.failed);
    // No "originally: " in the audit trail: the model never produced words
    // for this line, so there is no original to keep.
    assert_eq!(redone.original, None);

    let loaded = open(draft.dir()).expect("reopen");
    assert!(!loaded.lines[0].failed);
    assert_eq!(loaded.lines[0].text, "the fence has no collision");
    assert_eq!(loaded.lines[0].original, None);
    assert_eq!(loaded.draft.line_count(), 1);
    assert_eq!(
        loaded
            .draft
            .preview_markdown(None, SessionDividers::Shown)
            .expect("render"),
        "- 10:00:00 — the fence has no collision\n"
    );
}

#[test]
fn typing_the_words_resolves_a_failed_line_exactly_as_a_retry_does() {
    // The manual resolve. It matters that this is the *same* path: a user
    // who types their finding must never be able to produce a line the
    // renderer then drops (invariant 4).
    let (_tmp, store) = store();
    let mut draft = store.create_draft(None).expect("create");
    let record = append_failed(&mut draft, "2026-08-12T10:00:00+02:00", &[0.2]);

    draft
        .edit_line(&record.id, "I said it myself")
        .expect("edit");

    let loaded = open(draft.dir()).expect("reopen");
    assert!(!loaded.lines[0].failed);
    assert_eq!(
        loaded
            .draft
            .preview_markdown(None, SessionDividers::Shown)
            .expect("render"),
        "- 10:00:00 — I said it myself\n"
    );
}

#[test]
fn emptying_a_resolved_line_returns_it_to_the_failed_state() {
    // The undo of a typed resolve replays the inverse `line_edit`
    // straight through the command — it never passes the window's
    // empty-text guard — so if the fold only cleared `failed` one way, an
    // undo would leave an *empty ok* line: an empty bullet in the note,
    // with the failure and its Retry gone for good.
    let (_tmp, store) = store();
    let mut draft = store.create_draft(None).expect("create");
    let record = append_failed(&mut draft, "2026-08-12T10:00:00+02:00", &[0.2]);

    draft
        .edit_line(&record.id, "I said it myself")
        .expect("edit");
    assert_eq!(draft.line_count(), 1);

    let back = draft.edit_line(&record.id, "").expect("undo the resolve");
    assert!(back.failed, "the line stopped being a failure permanently");
    assert!(back.text.is_empty());
    assert_eq!(draft.line_count(), 0, "and it left the note again");

    // The single-record fold above has to agree with a whole re-read.
    let loaded = open(draft.dir()).expect("reopen");
    assert!(loaded.lines[0].failed);
    assert_eq!(loaded.lines[0].original, None);
    assert_eq!(loaded.draft.line_count(), 0);
    assert_eq!(
        loaded
            .draft
            .preview_markdown(None, SessionDividers::Shown)
            .expect("render"),
        "",
        "an undone resolve must not leave an empty bullet"
    );

    // And redo puts it back, so the round trip is symmetric both ways.
    draft
        .edit_line(&record.id, "I said it myself")
        .expect("redo");
    assert_eq!(draft.line_count(), 1);
    assert_eq!(
        open(draft.dir())
            .expect("reopen")
            .draft
            .preview_markdown(None, SessionDividers::Shown)
            .expect("render"),
        "- 10:00:00 — I said it myself\n"
    );
}

#[test]
fn an_ordinary_line_edited_to_empty_is_still_an_ordinary_line() {
    // The other half of the symmetry: `failed` is the *base record's* flag
    // and nothing else can set it, so emptying a line the model
    // transcribed leaves an empty `ok` line — pre-existing behaviour, and
    // deliberately left alone.
    let (_tmp, store) = store();
    let mut draft = store.create_draft(None).expect("create");
    let spoken = append(
        &mut draft,
        "said something",
        "2026-08-12T10:00:00+02:00",
        &[0.1],
    );

    let emptied = draft.edit_line(&spoken.id, "").expect("edit");

    assert!(!emptied.failed);
    assert_eq!(emptied.original.as_deref(), Some("said something"));
    let loaded = open(draft.dir()).expect("reopen");
    assert!(!loaded.lines[0].failed);
    assert_eq!(loaded.draft.line_count(), 1);
}

#[test]
fn deleting_a_failed_line_leaves_it_failed_underneath() {
    // A delete says nothing about the text, so the state stands; what
    // changes is only which display wins, which is the window's business.
    let (_tmp, store) = store();
    let mut draft = store.create_draft(None).expect("create");
    let record = append_failed(&mut draft, "2026-08-12T10:00:00+02:00", &[0.2]);

    draft.set_deleted(&record.id, true).expect("delete");

    let loaded = open(draft.dir()).expect("reopen");
    assert!(loaded.lines[0].failed, "a delete must not resolve it");
    assert!(loaded.lines[0].deleted);
    // Excluded once for either reason; never a half-rendered bullet.
    assert_eq!(
        loaded
            .draft
            .preview_markdown(None, SessionDividers::Shown)
            .expect("render"),
        ""
    );
}

#[test]
fn a_re_transcribe_of_an_ordinary_line_behaves_exactly_as_it_always_did() {
    // The regression guard on the fold: `failed` starts false, stays false,
    // and `original` still reports what was first said.
    let (_tmp, store) = store();
    let mut draft = store.create_draft(None).expect("create");
    let spoken = append(&mut draft, "mumbled", "2026-08-12T10:00:00+02:00", &[0.1]);

    draft
        .retranscribed_line(&spoken.id, "clear now", Some(90))
        .expect("retranscribe");

    let loaded = open(draft.dir()).expect("reopen");
    assert!(!loaded.lines[0].failed);
    assert_eq!(loaded.lines[0].text, "clear now");
    assert_eq!(loaded.lines[0].original.as_deref(), Some("mumbled"));
    assert_eq!(loaded.draft.line_count(), 1);
}

#[test]
fn a_soft_deleted_line_is_a_valid_anchor_and_holds_its_place() {
    let (_tmp, store) = store();
    let mut draft = store.create_draft(None).expect("create");
    let (a, b, c) = three_lines(&mut draft);

    draft.set_deleted(&b, true).expect("delete the middle");
    // Deleted lines still hold a place in the transcript, so they can be
    // moved and anchored to.
    draft.move_line(&c, Some(&b)).expect("move after a deleted");
    assert_eq!(order_of(&draft), vec![a.clone(), b.clone(), c.clone()]);

    draft.move_line(&b, None).expect("move the deleted one");
    assert_eq!(order_of(&draft), vec![b, a, c]);
    assert_eq!(draft.line_count(), 2, "a move never changes the live count");
}

#[test]
fn a_move_marks_the_draft_dirty_again() {
    let (tmp, store) = store();
    let mut draft = store.create_draft(None).expect("create");
    let (a, _b, c) = three_lines(&mut draft);
    draft
        .save_as(&tmp.path().join("notes.md"), None)
        .expect("save");
    assert!(!draft.dirty());

    draft.move_line(&c, Some(&a)).expect("move");

    assert!(draft.dirty());
    assert!(open(draft.dir()).expect("reopen").draft.meta().dirty);
}

#[test]
fn repositioning_is_the_same_arithmetic_everywhere() {
    // The one helper both the fold and the writer use, so a move on disk
    // and a move in the returned transcript cannot disagree.
    let mut items = vec!['a', 'b', 'c', 'd'];
    reposition(&mut items, 0, Some(2));
    assert_eq!(items, vec!['b', 'c', 'a', 'd']);
    reposition(&mut items, 3, Some(0));
    assert_eq!(items, vec!['b', 'd', 'c', 'a']);
    reposition(&mut items, 2, None);
    assert_eq!(items, vec!['c', 'b', 'd', 'a']);

    assert!(is_settled(0, None));
    assert!(!is_settled(1, None));
    assert!(is_settled(2, Some(1)));
    assert!(is_settled(2, Some(2)));
    assert!(!is_settled(1, Some(2)));
}

#[test]
fn a_failed_line_moves_and_stays_failed() {
    // Its value *is* its audio, so it is exactly the kind of line
    // worth stitching into another note — and the flag has to travel or the
    // destination would show an empty ok line with no Retry.
    let (_tmp, _store, mut from, mut into) = two_drafts();
    let refused = append_failed(&mut from, "2026-08-19T14:32:00+02:00", &[0.4, -0.4, 0.4]);

    let moved = from.export_line(&refused.id).expect("export");
    into.import_line(&moved, true).expect("import");

    let arrived = only_line(&into);
    assert!(arrived.failed, "the failure travelled");
    assert!(arrived.text.is_empty());
    assert_eq!(arrived.original, None);
    assert_eq!(arrived.spoken_at, ts("2026-08-19T14:32:00+02:00"));
    assert_eq!(
        into.line_count(),
        0,
        "a failed line has no words, so it is not in the note — the same \
         rule an appended one follows"
    );
    // And its audio is what makes it worth having.
    assert!(into.dir().join(&arrived.audio).is_file());
}

#[test]
fn a_destination_with_a_moved_line_in_it_still_parses_under_the_four_shape_rule() {
    // An older build has to read a file a newer one wrote: the move emits
    // only the record shapes that already existed, so every line of the
    // destination log still discriminates the same way.
    let (_tmp, _store, mut from, mut into) = two_drafts();
    append(
        &mut into,
        "already here",
        "2026-08-19T09:00:00+02:00",
        &[0.1],
    );
    into.mark_session().expect("marker");
    let spoken = append(&mut from, "spoken", "2026-08-19T14:36:00+02:00", &[0.3]);
    from.edit_line(&spoken.id, "spoken, then tidied")
        .expect("edit");
    let anchor = only_line(&into).id;

    let moved = from.export_line(&spoken.id).expect("export");
    let arrived = into.import_line(&moved, true).expect("import");
    into.move_line(&arrived.id, None).expect("reorder");

    let loaded = open(into.dir()).expect("reopen");
    assert_eq!(loaded.skipped_lines, 0, "every record still parsed");
    assert_eq!(
        loaded
            .lines
            .iter()
            .map(|line| line.text.as_str())
            .collect::<Vec<_>>(),
        vec!["spoken, then tidied", "already here"],
        "the arrival takes part in the ordinary fold, moves included"
    );
    assert_eq!(loaded.lines[1].id, anchor);
    assert_eq!(loaded.draft.line_count(), 2);
    assert_eq!(
        loaded
            .draft
            .preview_markdown(None, SessionDividers::Hidden)
            .expect("render"),
        "- 14:36:00 — spoken, then tidied\n- 09:00:00 — already here\n",
        "the arrival renders with the timestamp it was spoken at"
    );
}

#[test]
fn an_import_marks_the_destination_dirty_and_never_touches_its_guard() {
    let (tmp, _store, mut from, mut into) = two_drafts();
    append(
        &mut into,
        "already here",
        "2026-08-19T09:00:00+02:00",
        &[0.1],
    );
    into.save_as(&tmp.path().join("destination.md"), None)
        .expect("save");
    assert!(!into.dirty());
    let guard = into.meta().last_save_hash.clone();
    assert!(guard.is_some());

    let spoken = append(&mut from, "arriving", "2026-08-19T14:37:00+02:00", &[0.1]);
    let moved = from.export_line(&spoken.id).expect("export");
    into.import_line(&moved, true).expect("import");

    assert!(into.dirty(), "the note is behind its file again");
    assert!(open(into.dir()).expect("reopen").draft.meta().dirty);
    assert_eq!(
        into.meta().last_save_hash,
        guard,
        "the external-edit guard is about the markdown file, which a move \
         does not write"
    );
}

#[test]
fn a_draft_refuses_to_import_its_own_line() {
    // The one-handle rule, where it cannot be forgotten: this is the shape
    // the worker's own refusal mirrors.
    let (_tmp, _store, mut from, _into) = two_drafts();
    let spoken = append(&mut from, "mine", "2026-08-19T14:38:00+02:00", &[0.1]);
    let moved = from.export_line(&spoken.id).expect("export");

    let err = from.import_line(&moved, true).expect_err("refused");
    assert!(matches!(err, DraftError::SameDraft { .. }), "{err:?}");
    assert_eq!(
        open(from.dir()).expect("reopen").lines.len(),
        1,
        "and nothing was appended"
    );
}

#[test]
fn an_empty_destination_takes_an_arrival_with_no_divider_at_all() {
    // A divider separates; an empty note has nothing to be separated from,
    // and a leading `---` is exactly what the renderer refuses to emit.
    // This is also the chooser's New note path end to end: a fresh draft
    // takes a whole batch and ends up with no marker anywhere in it.
    let (_tmp, _store, mut from, mut into) = two_drafts();
    let one = append(
        &mut from,
        "the first one",
        "2026-08-20T10:00:00+02:00",
        &[0.1],
    );
    let two = append(
        &mut from,
        "the second one",
        "2026-08-20T10:01:00+02:00",
        &[0.1],
    );

    move_batch(&mut from, &mut into, &[&one.id, &two.id]);

    assert_eq!(shapes(&into), vec!["line", "line"]);
    assert_eq!(sessions_of(&into), vec![0, 0]);
}

#[test]
fn an_arrival_into_a_note_that_has_lines_lands_under_one_new_marker() {
    let (_tmp, _store, mut from, mut into) = two_drafts();
    append(
        &mut into,
        "already here",
        "2026-08-20T09:00:00+02:00",
        &[0.1],
    );
    let spoken = append(
        &mut from,
        "stitched in",
        "2026-08-20T10:00:00+02:00",
        &[0.1],
    );

    let moved = from.export_line(&spoken.id).expect("export");
    into.import_line(&moved, true).expect("import");

    assert_eq!(
        shapes(&into),
        vec!["line", "marker", "line"],
        "the marker goes above the arrival, not below it"
    );
    assert_eq!(
        sessions_of(&into),
        vec![0, 1],
        "the arrival is a sitting of its own, exactly as a resumed one is"
    );
}

#[test]
fn a_destination_whose_log_already_ends_in_a_marker_gains_no_second_one() {
    // The other half of "a divider is never doubled": a note resumed but
    // not yet spoken into ends in an owed marker, and an arrival takes that
    // one rather than writing its twin.
    let (_tmp, _store, mut from, mut into) = two_drafts();
    append(
        &mut into,
        "already here",
        "2026-08-20T09:00:00+02:00",
        &[0.1],
    );
    into.mark_session().expect("marker");
    let spoken = append(
        &mut from,
        "stitched in",
        "2026-08-20T10:00:00+02:00",
        &[0.1],
    );

    let moved = from.export_line(&spoken.id).expect("export");
    into.import_line(&moved, true).expect("import");

    assert_eq!(shapes(&into), vec!["line", "marker", "line"]);
    assert_eq!(sessions_of(&into), vec![0, 1]);
}

#[test]
fn a_whole_batch_lands_under_one_marker_however_many_lines_it_holds() {
    // The divider belongs to the *move*, not to each line in it: three
    // stitched lines are one sitting, and three `---`s between them would
    // be exactly the doubling the rule forbids. Only the first call
    // divides, which is why the boundary travels in the command — after
    // the first line lands, this log's tail is a line record like any
    // other and nothing here could tell which move put it there.
    let (_tmp, _store, mut from, mut into) = two_drafts();
    append(
        &mut into,
        "already here",
        "2026-08-20T09:00:00+02:00",
        &[0.1],
    );
    let one = append(&mut from, "one", "2026-08-20T10:00:00+02:00", &[0.1]);
    let two = append(&mut from, "two", "2026-08-20T10:01:00+02:00", &[0.1]);
    let three = append(&mut from, "three", "2026-08-20T10:02:00+02:00", &[0.1]);

    move_batch(&mut from, &mut into, &[&one.id, &two.id, &three.id]);

    assert_eq!(
        shapes(&into),
        vec!["line", "marker", "line", "line", "line"],
        "one marker, above the first arrival"
    );
    assert_eq!(
        sessions_of(&into),
        vec![0, 1, 1, 1],
        "the whole batch is one sitting, so the render draws one divider"
    );
}

#[test]
fn a_later_batch_into_the_same_note_gets_a_divider_of_its_own() {
    // The other direction, and the reason the flag is not a "has this note
    // ever taken an arrival" latch: a second stitching pass is a second
    // sitting, and it says so itself.
    let (_tmp, _store, mut from, mut into) = two_drafts();
    append(
        &mut into,
        "already here",
        "2026-08-20T09:00:00+02:00",
        &[0.1],
    );
    let one = append(&mut from, "one", "2026-08-20T10:00:00+02:00", &[0.1]);
    let two = append(&mut from, "two", "2026-08-20T10:01:00+02:00", &[0.1]);
    let later = append(&mut from, "later", "2026-08-20T11:00:00+02:00", &[0.1]);

    move_batch(&mut from, &mut into, &[&one.id, &two.id]);
    move_batch(&mut from, &mut into, &[&later.id]);

    assert_eq!(
        shapes(&into),
        vec!["line", "marker", "line", "line", "marker", "line"]
    );
    assert_eq!(sessions_of(&into), vec![0, 1, 1, 2]);
}

#[test]
fn a_line_that_is_not_the_first_of_its_batch_never_writes_a_marker() {
    // `divide: false` is unconditional: not "unless the note looks like it
    // needs one". The tail rule is the first line's guard, and nothing
    // else's.
    let (_tmp, _store, mut from, mut into) = two_drafts();
    append(
        &mut into,
        "already here",
        "2026-08-20T09:00:00+02:00",
        &[0.1],
    );
    let spoken = append(&mut from, "tail-ender", "2026-08-20T10:00:00+02:00", &[0.1]);

    let moved = from.export_line(&spoken.id).expect("export");
    into.import_line(&moved, false).expect("import");

    assert_eq!(
        shapes(&into),
        vec!["line", "line"],
        "a note with lines in it and no divider, because this was not a \
         batch's first line"
    );
    assert_eq!(sessions_of(&into), vec![0, 0]);
}

#[test]
fn the_marker_is_always_written_and_only_the_setting_decides_the_render() {
    // Markers are written unconditionally, exactly as dictation writes
    // them; `session_dividers` is a *rendering* choice, which is what makes
    // turning it on and off safe for a file already bound to a draft.
    let (_tmp, _store, mut from, mut into) = two_drafts();
    append(
        &mut into,
        "already here",
        "2026-08-20T09:00:00+02:00",
        &[0.1],
    );
    let spoken = append(
        &mut from,
        "stitched in",
        "2026-08-20T10:00:00+02:00",
        &[0.1],
    );

    let moved = from.export_line(&spoken.id).expect("export");
    into.import_line(&moved, true).expect("import");

    assert_eq!(
        into.preview_markdown(None, SessionDividers::Shown)
            .expect("render"),
        "- 09:00:00 — already here\n\n---\n\n- 10:00:00 — stitched in\n"
    );
    assert_eq!(
        into.preview_markdown(None, SessionDividers::Hidden)
            .expect("render"),
        "- 09:00:00 — already here\n- 10:00:00 — stitched in\n",
        "the same log, the same records, no divider"
    );
}

#[test]
fn a_refused_import_writes_no_divider_either() {
    // The refusal is checked before anything of this line reaches disk, and
    // that includes the marker: a note must not grow a sitting because a
    // move was asked for and turned down.
    let (_tmp, _store, mut from, _into) = two_drafts();
    let spoken = append(&mut from, "mine", "2026-08-20T10:00:00+02:00", &[0.1]);
    let moved = from.export_line(&spoken.id).expect("export");

    from.import_line(&moved, true).expect_err("refused");

    assert_eq!(shapes(&from), vec!["line"]);
}

#[test]
fn a_marker_splits_the_lines_after_it_into_a_later_sitting() {
    let (_tmp, store) = store();
    let mut draft = store.create_draft(None).expect("create");
    append(&mut draft, "first", "2026-08-05T10:00:00+02:00", &[0.1]);
    append(&mut draft, "second", "2026-08-05T10:01:00+02:00", &[0.1]);
    assert_eq!(sessions_of(&draft), vec![0, 0]);

    draft.mark_session().expect("marker");
    // The marker on its own changes no line.
    assert_eq!(sessions_of(&draft), vec![0, 0]);

    append(&mut draft, "third", "2026-08-06T09:00:00+02:00", &[0.1]);
    draft.mark_session().expect("second marker");
    append(&mut draft, "fourth", "2026-08-07T09:00:00+02:00", &[0.1]);

    assert_eq!(sessions_of(&draft), vec![0, 0, 1, 2]);
    // And it survives a reload: the ordinals are read off the file, never
    // remembered.
    let reopened = open(draft.dir()).expect("reopen").draft;
    assert_eq!(sessions_of(&reopened), vec![0, 0, 1, 2]);
    assert_eq!(reopened.line_count(), 4);
}

#[test]
fn a_marker_marks_the_draft_dirty_because_it_changes_the_render() {
    let (_tmp, store) = store();
    let mut draft = store.create_draft(None).expect("create");
    append(&mut draft, "first", "2026-08-05T10:00:00+02:00", &[0.1]);
    let target = _tmp.path().join("note.md");
    draft.save_as(&target, None).expect("save");
    assert!(!draft.dirty());

    draft.mark_session().expect("marker");
    assert!(draft.dirty());
}

#[test]
fn a_line_keeps_the_sitting_it_was_spoken_in_when_it_is_dragged() {
    // Which sitting a line belongs to is a fact about when it was written.
    // A drag moves where it *reads*, never when it was said.
    let (_tmp, store) = store();
    let mut draft = store.create_draft(None).expect("create");
    let first = append(&mut draft, "monday", "2026-08-03T10:00:00+02:00", &[0.1]);
    draft.mark_session().expect("marker");
    let second = append(&mut draft, "tuesday", "2026-08-04T10:00:00+02:00", &[0.1]);
    assert_eq!(sessions_of(&draft), vec![0, 1]);

    draft.move_line(&second.id, None).expect("move to the top");
    let transcript = draft.read_transcript().expect("read");
    assert_eq!(
        transcript
            .lines
            .iter()
            .map(|l| l.id.clone())
            .collect::<Vec<_>>(),
        vec![second.id.clone(), first.id]
    );
    assert_eq!(transcript.sessions, vec![1, 0]);
}

#[test]
fn line_audio_paths_refuse_anything_that_is_not_a_bare_id() {
    let (_tmp, store) = store();
    let mut draft = store.create_draft(None).expect("create");
    let spoken = append(&mut draft, "spoken", "2026-08-05T10:00:00+02:00", &[0.1]);

    let path = draft.line_audio_path(&spoken.id).expect("path");
    assert_eq!(path, draft.dir().join(&spoken.audio));
    assert!(path.is_file());

    for id in [
        "",
        ".",
        "..",
        ".hidden",
        "../../secrets",
        "audio/01JLINE",
        "/absolute",
        "01JLINE.wav",
        "01JLINE.",
    ] {
        match draft.line_audio_path(id) {
            Err(DraftError::BadId { .. }) => {}
            other => panic!("{id:?} was not rejected: {other:?}"),
        }
    }

    // The store-side form validates the draft id too: this is the pair the
    // playback command hands straight over from the frontend.
    let draft_id = draft.id().to_owned();
    assert_eq!(
        store.line_audio_path(&draft_id, &spoken.id).expect("path"),
        path
    );
    for (draft_id, line_id) in [
        ("../escape", spoken.id.as_str()),
        (".trash", spoken.id.as_str()),
        (draft_id.as_str(), "../../../etc/passwd"),
        (draft_id.as_str(), ""),
    ] {
        match store.line_audio_path(draft_id, line_id) {
            Err(DraftError::BadId { .. }) => {}
            other => panic!("{draft_id:?}/{line_id:?} was not rejected: {other:?}"),
        }
    }
}

#[test]
fn a_term_is_trimmed_and_an_empty_one_is_search_off() {
    assert_eq!(
        SearchTerm::parse("  table  ").expect("term").as_str(),
        "table"
    );
    // Interior whitespace is part of the literal — no tokenising.
    assert_eq!(
        SearchTerm::parse(" the table ").expect("term").as_str(),
        "the table"
    );
    // The off switch, and the only one.
    assert!(SearchTerm::parse("").is_none());
    assert!(SearchTerm::parse("   ").is_none());
    assert!(SearchTerm::parse("\t\n ").is_none());
}

#[test]
fn matching_is_case_insensitive_literal_substring() {
    let term = SearchTerm::parse("Table").expect("term");
    assert!(term.matches_text("the table redraws"));
    assert!(term.matches_text("TABLE"));
    // The mock's own case: "Table" at the start of a sentence matches a
    // lowercase term and vice versa.
    assert!(SearchTerm::parse("table")
        .expect("term")
        .matches_text("Table rows lose their hover state"));
    // A substring, not a word: "table" is in "tables".
    assert!(term.matches_text("two tables"));
    assert!(!term.matches_text("tabel"));
    // No regex, no globbing: the term is literal.
    let dotted = SearchTerm::parse("t.ble").expect("term");
    assert!(!dotted.matches_text("the table"));
    assert!(dotted.matches_text("a t.ble"));
}

#[test]
fn deleted_and_unresolved_failed_lines_never_match() {
    let term = SearchTerm::parse("table").expect("term");

    let mut deleted = line("01A", "2026-08-05T10:00:00+02:00", "the table flickers");
    deleted.deleted = true;
    assert!(!term.matches_line(&deleted));

    // A failed line has no words at all, and the folded flag is what says
    // so. Both halves are checked: the flag alone excludes it even if
    // something ever put text beside it.
    let mut failed = line("01B", "2026-08-05T10:00:01+02:00", "");
    failed.failed = true;
    assert!(!term.matches_line(&failed));
    let mut resolved = line("01C", "2026-08-05T10:00:02+02:00", "the table flickers");
    resolved.failed = false;
    assert!(term.matches_line(&resolved));

    // And the live one still does.
    assert!(term.matches_line(&line(
        "01D",
        "2026-08-05T10:00:03+02:00",
        "sorting the table"
    )));
}

#[test]
fn a_matching_line_counts_once_however_often_the_term_occurs() {
    let term = SearchTerm::parse("table").expect("term");
    let lines = vec![
        line("01A", "2026-08-05T10:00:00+02:00", "table table table"),
        line("01B", "2026-08-05T10:00:01+02:00", "nothing here"),
        line("01C", "2026-08-05T10:00:02+02:00", "one Table"),
    ];
    // Indices, in transcript order, one per line.
    assert_eq!(matching_lines(&term, &lines), vec![0, 2]);
}

#[test]
fn last_written_is_the_newest_live_line_or_nothing_at_all() {
    // No lines at all: nothing has ever been written, and the caller's
    // fallback (the draft's creation time) takes over.
    assert_eq!(last_written(&[]), None);

    let mut lines = vec![
        line("01A", "2026-08-05T10:00:00+02:00", "one"),
        line("01B", "2026-08-05T10:05:00+02:00", "two"),
        // Out of chronological order on purpose: a drag reorders the
        // transcript and every line keeps the time it was spoken at, so
        // "last" is a max and never "the one at the end".
        line("01C", "2026-08-05T10:02:00+02:00", "three"),
    ];
    assert_eq!(last_written(&lines), Some(ts("2026-08-05T10:05:00+02:00")));

    // A deleted or failed line is not something that was written into the
    // note, so it cannot be when the note was last written.
    lines[1].deleted = true;
    assert_eq!(last_written(&lines), Some(ts("2026-08-05T10:02:00+02:00")));
    lines[2].failed = true;
    assert_eq!(last_written(&lines), Some(ts("2026-08-05T10:00:00+02:00")));
    lines[0].deleted = true;
    assert_eq!(last_written(&lines), None);
}

#[test]
fn a_torn_tail_is_skipped_counted_and_never_removed() {
    let (_tmp, store) = store();
    let mut draft = store.create_draft(None).expect("create");
    let dir = draft.dir().clone();

    append(&mut draft, "one", "2026-08-03T10:00:00+02:00", &[0.1]);
    append(&mut draft, "two", "2026-08-03T10:00:01+02:00", &[0.1]);
    drop(draft);

    // A crash mid-append: a partial record with no terminating newline.
    let lines_path = dir.join(LINES_FILE);
    let garbage = br#"{"id":"01HALF","spoken_at":"2026-08-0"#;
    let file = lines_path.clone();
    fs_append(&file, garbage).expect("write garbage");
    drop(file);

    let loaded = open(&dir).expect("open");
    assert_eq!(loaded.lines.len(), 2);
    assert_eq!(loaded.skipped_lines, 1);

    let mut reopened = loaded.draft;
    append(&mut reopened, "three", "2026-08-03T10:00:02+02:00", &[0.1]);

    let again = open(&dir).expect("reopen");
    assert_eq!(again.lines.len(), 3);
    assert_eq!(again.lines[2].text, "three");
    // The torn bytes survive as their own malformed line: nothing truncated.
    assert_eq!(again.skipped_lines, 1);
    let bytes = fs_read(&lines_path).expect("read lines");
    assert!(
        bytes.windows(garbage.len()).any(|window| window == garbage),
        "the torn bytes were removed"
    );
}

#[test]
fn a_malformed_interior_line_is_skipped_and_its_neighbours_load() {
    let (_tmp, store) = store();
    let mut draft = store.create_draft(None).expect("create");
    let dir = draft.dir().clone();

    append(&mut draft, "before", "2026-08-03T10:00:00+02:00", &[0.1]);
    drop(draft);

    let lines_path = dir.join(LINES_FILE);
    let file = lines_path.clone();
    fs_append(&file, b"this is not json at all\n").expect("write");
    drop(file);

    let loaded = open(&dir).expect("open");
    let mut reopened = loaded.draft;
    append(&mut reopened, "after", "2026-08-03T10:00:02+02:00", &[0.1]);

    let again = open(&dir).expect("reopen");
    let texts: Vec<&str> = again.lines.iter().map(|l| l.text.as_str()).collect();
    assert_eq!(texts, vec!["before", "after"]);
    assert_eq!(again.skipped_lines, 1);
}

#[test]
fn meta_tolerates_unknown_fields_and_missing_optional_ones() {
    let tmp = disk();
    let dir = tmp.path().join("01JDRAFT");
    fs_create_dir_all(dir.join(AUDIO_DIR)).expect("dirs");
    fs_write(
        dir.join(META_FILE),
        br#"{"version":1,"id":"01JDRAFT","created_at":"2026-08-03T10:00:00+02:00",
             "a_field_from_the_future":{"nested":true}}"#,
    )
    .expect("seed meta");

    let loaded = open(&dir).expect("open");

    assert_eq!(loaded.draft.meta().id, "01JDRAFT");
    assert!(loaded.draft.meta().project.is_none());
    assert!(!loaded.draft.meta().dirty);
    assert!(loaded.lines.is_empty());
    assert_eq!(loaded.skipped_lines, 0);
}

#[test]
fn a_line_without_the_optional_fields_still_loads() {
    let tmp = disk();
    let dir = tmp.path().join("01JDRAFT");
    fs_create_dir_all(dir.join(AUDIO_DIR)).expect("dirs");
    fs_write(
        dir.join(META_FILE),
        br#"{"version":1,"id":"01JDRAFT","created_at":"2026-08-03T10:00:00+02:00"}"#,
    )
    .expect("seed meta");
    fs_write(
        dir.join(LINES_FILE),
        b"{\"id\":\"01JLINE\",\"spoken_at\":\"2026-08-03T10:00:00+02:00\",\
          \"text\":\"terse\",\"original\":null,\"audio\":\"audio/01JLINE.wav\"}\n",
    )
    .expect("seed lines");

    let loaded = open(&dir).expect("open");

    assert_eq!(loaded.lines.len(), 1);
    assert!(!loaded.lines[0].deleted);
    assert!(loaded.lines[0].transcribe_ms.is_none());
}

#[test]
fn listing_separates_loadable_drafts_from_damaged_ones() {
    let (_tmp, store) = store();

    let mut good = store.create_draft(Some("demo")).expect("create good");
    append(&mut good, "kept", "2026-08-03T10:00:00+02:00", &[0.1]);

    let broken = store.create_draft(None).expect("create broken");
    fs_write(broken.meta_path(), b"{ this is not json").expect("mangle meta");

    let scan = store.list_drafts().expect("list");

    assert_eq!(scan.drafts.len(), 1);
    assert_eq!(scan.drafts[0].id, good.id());
    assert_eq!(scan.drafts[0].line_count, 1);
    assert!(scan.drafts[0].dirty);
    assert_eq!(scan.drafts[0].project.as_deref(), Some("demo"));
    assert_eq!(scan.drafts[0].dir, good.dir());

    assert_eq!(scan.rejected.len(), 1);
    assert_eq!(scan.rejected[0].dir, broken.dir());
    assert!(matches!(scan.rejected[0].error, DraftError::BadMeta { .. }));
    assert!(scan.rejected[0].error.path().text().ends_with(META_FILE));
}

#[test]
fn a_discard_writes_a_marker_and_refuses_to_land_on_an_existing_one() {
    let (_tmp, store) = store();
    let first = store.create_draft(None).expect("first");
    let id = first.id().to_owned();
    drop(first);
    let trashed = store.discard(&id).expect("discard");

    let marker = fs_read_to_string(trashed.join(DISCARDED_MARKER)).expect("marker");
    assert!(
        chrono::DateTime::parse_from_rfc3339(marker.trim()).is_ok(),
        "marker is not RFC3339: {marker:?}"
    );

    // Same id again (only reachable if something outside Sotone put it
    // there): the second draft stays where it is rather than overwriting.
    fs_create_dir_all(store.root.join(&id)).expect("re-create");
    let err = store.discard(&id).expect_err("collision");
    assert!(matches!(err, DraftError::TrashCollision { .. }), "{err:?}");
    assert!(
        store.root.join(&id).is_dir(),
        "the draft was moved anyway"
    );
}

#[test]
fn the_sweep_removes_old_entries_and_keeps_fresh_ones() {
    let (_tmp, store) = store();

    let old = store.create_draft(None).expect("old");
    let old_id = old.id().to_owned();
    drop(old);
    let old_path = store.discard(&old_id).expect("discard old");
    // Backdate the marker: the age is measured from the discard, and this
    // is the only part of it a test can control.
    fs_write(
        old_path.join(DISCARDED_MARKER),
        (chrono::Local::now() - chrono::Duration::days(31))
            .fixed_offset()
            .to_rfc3339(),
    )
    .expect("backdate");

    let fresh = store.create_draft(None).expect("fresh");
    let fresh_id = fresh.id().to_owned();
    drop(fresh);
    let fresh_path = store.discard(&fresh_id).expect("discard fresh");

    let sweep = store.sweep_trash(trash_retention()).expect("sweep");

    assert_eq!(
        sweep,
        TrashSweep {
            removed: 1,
            kept: 1,
            failed: 0
        }
    );
    assert!(!old_path.is_there());
    assert!(fresh_path.is_dir());
}

#[test]
fn the_first_save_writes_the_file_binds_it_and_clears_dirty() {
    let (tmp, store) = store();
    let mut draft = store.create_draft(None).expect("create");
    append(
        &mut draft,
        "the menu does nothing",
        "2026-08-04T14:32:07+02:00",
        &[0.1],
    );
    append(
        &mut draft,
        "clipping at the fence",
        "2026-08-04T14:33:12+02:00",
        &[0.1],
    );
    assert!(draft.dirty());
    assert!(draft.saved_path().is_none());

    let target = tmp.path().join("notes").join("playtest.md");
    let report = draft.save_as(&target, Some("# Playtest")).expect("save");

    let written = fs_read_to_string(&target).expect("read markdown");
    assert_eq!(
        written,
        "# Playtest\n\n- 14:32:07 — the menu does nothing\n- 14:33:12 — clipping at the fence\n"
    );
    assert_eq!(report.path, target);
    assert_eq!(report.bytes, written.len());
    assert_eq!(report.lines, 2);

    assert!(!draft.dirty());
    assert_eq!(draft.saved_path(), Some(target.text()));

    // And the binding is on disk, not just on the handle.
    let reopened = open(draft.dir()).expect("reopen");
    assert!(!reopened.draft.meta().dirty);
    assert_eq!(
        reopened.draft.saved_path(),
        Some(target.text())
    );
    assert_eq!(
        reopened.draft.meta().last_save_hash.as_deref(),
        Some(hex(written.as_bytes()).as_str())
    );
}

#[test]
fn appending_after_a_save_makes_the_draft_dirty_again() {
    let (tmp, store) = store();
    let mut draft = store.create_draft(None).expect("create");
    append(&mut draft, "one", "2026-08-04T14:32:07+02:00", &[0.1]);

    let target = tmp.path().join("notes.md");
    draft.save_as(&target, None).expect("save");
    assert!(!draft.dirty());

    append(&mut draft, "two", "2026-08-04T14:34:00+02:00", &[0.1]);
    assert!(draft.dirty());
    assert!(open(draft.dir()).expect("reopen").draft.meta().dirty);

    // Re-saving over our own unmodified file picks up the new line.
    let report = draft.save(None).expect("re-save");
    assert_eq!(report.lines, 2);
    assert_eq!(
        fs_read_to_string(&target).expect("read"),
        "- 14:32:07 — one\n- 14:34:00 — two\n"
    );
    assert!(!draft.dirty());
}

#[test]
fn an_externally_edited_file_is_a_conflict_and_is_left_byte_identical() {
    let (tmp, store) = store();
    let mut draft = store.create_draft(None).expect("create");
    append(&mut draft, "first", "2026-08-04T14:32:07+02:00", &[0.1]);

    let target = tmp.path().join("notes.md");
    draft.save_as(&target, None).expect("save");

    // The user tidied the file in their editor.
    let edited = "- 14:32:07 — first, reworded by hand\n";
    fs_write(&target, edited).expect("external edit");
    append(&mut draft, "second", "2026-08-04T14:35:00+02:00", &[0.1]);

    let err = draft.save(None).expect_err("conflict");
    match &err {
        DraftError::SaveConflict { path } => assert_eq!(path, &target),
        other => panic!("expected a conflict, got {other:?}"),
    }
    // Provably untouched: the bytes on disk are the ones the user wrote.
    assert_eq!(fs_read_to_string(&target).expect("read"), edited);
    // The draft still knows it has unsaved work.
    assert!(draft.dirty());

    // Explicit overwrite is the resolution, and it re-arms the guard.
    let report = draft
        .save_with(None, SaveMode::Overwrite, SessionDividers::default())
        .expect("overwrite");
    let after = "- 14:32:07 — first\n- 14:35:00 — second\n";
    assert_eq!(fs_read_to_string(&target).expect("read"), after);
    assert_eq!(report.bytes, after.len());
    assert!(!draft.dirty());

    append(&mut draft, "third", "2026-08-04T14:36:00+02:00", &[0.1]);
    draft.save(None).expect("guarded save after overwrite");
}

#[test]
fn saving_onto_a_pre_existing_unrelated_file_is_a_conflict() {
    // No `last_save_hash` yet, and something is already there: this is the
    // clobber the guard exists for, not a first save.
    let (tmp, store) = store();
    let mut draft = store.create_draft(None).expect("create");
    append(&mut draft, "mine", "2026-08-04T14:32:07+02:00", &[0.1]);

    let target = tmp.path().join("someone-elses.md");
    fs_write(&target, b"important existing notes\n").expect("seed");

    let err = draft.save_as(&target, None).expect_err("conflict");
    assert!(matches!(err, DraftError::SaveConflict { .. }), "{err:?}");
    assert_eq!(
        fs_read_to_string(&target).expect("read"),
        "important existing notes\n"
    );
    assert!(draft.saved_path().is_none(), "the draft was bound anyway");
}

#[test]
fn a_missing_saved_file_is_recreated_rather_than_treated_as_a_conflict() {
    let (tmp, store) = store();
    let mut draft = store.create_draft(None).expect("create");
    append(&mut draft, "only line", "2026-08-04T14:32:07+02:00", &[0.1]);

    let target = tmp.path().join("notes.md");
    draft.save_as(&target, None).expect("save");
    fs_remove_file(&target).expect("user moved the file away");

    draft.save(None).expect("re-save recreates it");
    assert_eq!(
        fs_read_to_string(&target).expect("read"),
        "- 14:32:07 — only line\n"
    );
}

#[test]
fn a_save_can_rebind_to_a_different_path() {
    let (tmp, store) = store();
    let mut draft = store.create_draft(None).expect("create");
    append(&mut draft, "line", "2026-08-04T14:32:07+02:00", &[0.1]);

    let first = tmp.path().join("first.md");
    let second = tmp.path().join("second.md");
    draft.save_as(&first, None).expect("first save");
    draft.save_as(&second, None).expect("rebind");

    assert_eq!(draft.saved_path(), Some(second.text()));
    // The old file is left exactly as it was; rebinding is not a move.
    assert_eq!(
        fs_read_to_string(&first).expect("read first"),
        fs_read_to_string(&second).expect("read second")
    );
}

#[test]
fn a_relative_binding_follows_the_notes_folder_when_it_moves() {
    // With an absolute binding a re-save after a folder
    // move recreates the *old* folder ("missing = recreate" plus
    // create-parents). A relative binding is the fix, and this pins it.
    let (tmp, store) = store();
    let mut draft = store.create_draft(None).expect("create");
    append(&mut draft, "a finding", "2026-08-07T14:32:07+02:00", &[0.1]);

    let old_root = tmp.path().join("A");
    let first = old_root.join("note.md");
    save_in(&mut draft, &old_root, &first, None);
    assert!(first.is_file());

    // The user moves the folder and re-points the project at it. Nothing
    // repairs the note by hand.
    let new_root = tmp.path().join("B");
    fs_rename(&old_root, &new_root).expect("move the notes folder");
    assert!(!old_root.is_there());

    append(
        &mut draft,
        "another finding",
        "2026-08-07T14:40:00+02:00",
        &[0.1],
    );
    let report = save_in(&mut draft, &new_root, &tmp.bare("unused.md"), None);

    assert_eq!(report.path, new_root.join("note.md"));
    assert!(new_root.join("note.md").is_file());
    assert!(
        !old_root.is_there(),
        "the save resurrected the folder the user moved away from"
    );
    let written = fs_read_to_string(new_root.join("note.md")).expect("read back");
    assert!(written.contains("another finding"), "{written}");
}

#[test]
fn a_legacy_absolute_binding_keeps_working_and_is_rebound_on_the_next_save() {
    // Older builds wrote absolute paths. They must go on resolving
    // untouched, and the migration is the next successful save — never a
    // load-time rewrite.
    let (tmp, store) = store();
    let mut draft = store.create_draft(None).expect("create");
    append(&mut draft, "a finding", "2026-08-07T14:32:07+02:00", &[0.1]);

    let root = tmp.path().join("notes");
    fs_create_dir_all(&root).expect("notes dir");
    let target = root.join("legacy.md");
    draft.save_as(&target, None).expect("013-shaped save");
    assert_eq!(draft.saved_path(), Some(target.text()));

    // Reloaded from disk, the absolute binding is exactly what it was.
    let reloaded = open(draft.dir()).expect("reopen");
    assert_eq!(reloaded.draft.saved_path(), Some(target.text()));
    assert_eq!(
        reloaded.draft.resolved_saved_path(Some(&root)),
        Some(target.clone()),
        "an absolute binding ignores the root"
    );
    drop(reloaded);

    // The next save under a project rebinds it, in place, to the same file.
    append(&mut draft, "another", "2026-08-07T14:40:00+02:00", &[0.1]);
    let report = save_in(&mut draft, &root, &tmp.bare("unused.md"), None);
    assert_eq!(report.path, target);
    assert_eq!(draft.saved_path(), Some("legacy.md".to_owned()));
}

#[test]
fn renaming_a_note_onto_an_existing_file_is_refused_and_moves_nothing() {
    // `fs_rename` replaces its destination on Windows and POSIX alike, so
    // this refusal is the whole of the "never destroy a note" guarantee for
    // this operation.
    let (tmp, store) = store();
    let mut draft = store.create_draft(None).expect("create");
    append(&mut draft, "a finding", "2026-08-14T14:32:07+02:00", &[0.1]);

    let root = tmp.path().join("notes");
    save_in(&mut draft, &root, &root.join("mine.md"), None);

    let occupied = root.join("theirs.md");
    fs_write(&occupied, b"somebody else's words").expect("write the other note");

    let err = draft
        .rename_note("theirs", Some(&root))
        .expect_err("an occupied target");
    match &err {
        DraftError::NameTaken { path } => assert_eq!(path, &occupied),
        other => panic!("expected NameTaken, got {other:?}"),
    }

    assert_eq!(
        fs_read(&occupied).expect("read back"),
        b"somebody else's words",
        "the file in the way was overwritten"
    );
    assert!(root.join("mine.md").is_file(), "our own note moved anyway");
    assert_eq!(
        draft.saved_path(),
        Some("mine.md".to_owned()),
        "a refused rename must not touch the binding"
    );
}

#[test]
fn renaming_a_note_keeps_the_guard_hash_and_the_dirty_flag() {
    // A rename moves bytes and never changes them, so the external-edit
    // guard goes on working — at the new path — and a note that was behind
    // its file is still behind it.
    let (tmp, store) = store();
    let mut draft = store.create_draft(None).expect("create");
    append(&mut draft, "a finding", "2026-08-14T14:32:07+02:00", &[0.1]);

    let root = tmp.path().join("notes");
    save_in(&mut draft, &root, &root.join("before.md"), None);
    let hash = draft.meta().last_save_hash.clone();
    assert!(hash.is_some());

    // Dirty again, the way a post-save edit leaves it.
    append(&mut draft, "another", "2026-08-14T14:40:00+02:00", &[0.1]);
    assert!(draft.dirty());

    draft.rename_note("after", Some(&root)).expect("rename");

    assert_eq!(draft.meta().last_save_hash, hash, "the hash was dropped");
    assert!(draft.dirty(), "the rename cleared the unsaved flag");

    // The guard still guards: an external edit at the *new* path is caught.
    fs_write(root.join("after.md"), b"someone else edited it").expect("edit");
    let target = draft
        .save_target(&tmp.bare("unused.md"), Some(&root))
        .expect("a resolvable target");
    let err = draft
        .save_to(
            &target,
            SaveOptions {
                notes_root: Some(&root.path),
                ..SaveOptions::default()
            },
        )
        .expect_err("the guard should stop this");
    assert!(matches!(err, DraftError::SaveConflict { .. }), "{err:?}");
}

#[test]
fn a_renamed_note_saves_to_its_new_file() {
    let (tmp, store) = store();
    let mut draft = store.create_draft(None).expect("create");
    append(&mut draft, "a finding", "2026-08-14T14:32:07+02:00", &[0.1]);

    let root = tmp.path().join("notes");
    save_in(&mut draft, &root, &root.join("before.md"), None);
    draft.rename_note("after", Some(&root)).expect("rename");

    append(&mut draft, "another", "2026-08-14T14:40:00+02:00", &[0.1]);
    let report = save_in(&mut draft, &root, &tmp.bare("unused.md"), None);

    assert_eq!(report.path, root.join("after.md"));
    let written = fs_read_to_string(root.join("after.md")).expect("read back");
    assert!(written.contains("another"), "{written}");
    assert!(!root.join("before.md").is_there());
}

#[test]
fn a_rename_sanitizes_the_name_and_never_leaves_the_folder() {
    let (tmp, store) = store();
    let mut draft = store.create_draft(None).expect("create");
    append(&mut draft, "a finding", "2026-08-14T14:32:07+02:00", &[0.1]);

    let root = tmp.path().join("notes");
    save_in(&mut draft, &root, &root.join("before.md"), None);

    // Separators included: a rename renames, it never moves a note into
    // another folder, so the whole name collapses to one component.
    let report = draft
        .rename_note("../escape: 1/2", Some(&root))
        .expect("rename");

    assert_eq!(report.to.path.parent(), Some(root.path.clone()));
    assert_eq!(
        report.to.path.file_name().as_deref(),
        Some("..-escape- 1-2.md")
    );
    assert!(report.to.is_file());
}

#[test]
fn a_relative_binding_rides_a_project_folder_rename() {
    // Renaming a project renames its folder, and every
    // relative binding inside it is still correct afterwards — by
    // construction, because the binding never named the folder.
    let (tmp, store) = store();
    let mut draft = store.create_draft(Some("Ludo")).expect("create");
    append(&mut draft, "a finding", "2026-08-14T14:32:07+02:00", &[0.1]);

    let old_root = tmp.path().join("Ludo");
    save_in(&mut draft, &old_root, &old_root.join("session 1.md"), None);
    assert_eq!(draft.saved_path(), Some("session 1.md".to_owned()));

    // The project is renamed: one folder rename, one config write, and no
    // per-note repair at all.
    let new_root = tmp.path().join("Checkout rebuild");
    fs_rename(&old_root, &new_root).expect("rename the project folder");

    assert_eq!(
        draft.resolved_saved_path(Some(&new_root)),
        Some(new_root.join("session 1.md")),
        "the binding did not follow its folder"
    );
    let report = save_in(&mut draft, &new_root, &tmp.bare("unused.md"), None);
    assert_eq!(report.path, new_root.join("session 1.md"));
    assert!(!old_root.is_there(), "the save resurrected the old folder");
}

#[test]
fn set_project_rewrites_only_the_metadata() {
    let (_tmp, store) = store();
    let mut draft = store.create_draft(Some("Ludo")).expect("create");
    let record = append(&mut draft, "a finding", "2026-08-14T14:32:07+02:00", &[0.1]);
    let lines_before = fs_read(draft.lines_path()).expect("read the log");
    let audio = draft.dir().join(&record.audio);

    assert!(draft.set_project(Some("Checkout rebuild")).expect("sweep"));
    assert_eq!(draft.project(), Some("Checkout rebuild"));
    // A second pass over an already-swept draft writes nothing.
    assert!(!draft.set_project(Some("Checkout rebuild")).expect("sweep"));

    let reloaded = open(draft.dir()).expect("reopen");
    assert_eq!(reloaded.draft.project(), Some("Checkout rebuild"));
    assert_eq!(
        fs_read(draft.lines_path()).expect("read the log"),
        lines_before,
        "the sweep touched the line log"
    );
    assert!(audio.is_file(), "the sweep touched the audio");
}

#[test]
fn moving_a_note_carries_its_file_and_binds_relative_to_the_new_folder() {
    let (tmp, store) = store();
    let mut draft = store.create_draft(Some("Ludo")).expect("create");
    append(&mut draft, "a finding", "2026-08-19T14:32:07+02:00", &[0.1]);

    let ludo = tmp.path().join("Ludo");
    let backlog = tmp.path().join("Backlog");
    save_in(&mut draft, &ludo, &ludo.join("session 1.md"), None);
    let before = fs_read(ludo.join("session 1.md")).expect("read");

    let outcome = draft
        .move_to_project(drop_into(&ludo, &backlog, "Backlog"))
        .expect("the drop");
    assert_eq!(
        outcome,
        NoteMove::Moved {
            from: ludo.join("session 1.md").path,
            to: backlog.join("session 1.md").path,
            copied: false,
        }
    );

    // Gone from the source, there in the target, byte for byte.
    assert!(!ludo.join("session 1.md").is_there(), "the original stayed");
    assert_eq!(
        fs_read(backlog.join("session 1.md")).expect("read"),
        before,
        "a move changed the bytes"
    );
    assert_eq!(draft.project(), Some("Backlog"));
    assert_eq!(
        draft.saved_path(),
        Some("session 1.md".to_owned()),
        "the binding is relative to the folder the file is in now"
    );

    // On disk and in one write: reopening finds both fields moved.
    let reloaded = open(draft.dir()).expect("reopen");
    assert_eq!(reloaded.draft.project(), Some("Backlog"));
    assert_eq!(reloaded.draft.saved_path(), Some("session 1.md".to_owned()));

    // And Save rewrites the NEW path — the whole reason the binding moves.
    append(&mut draft, "another", "2026-08-19T14:40:00+02:00", &[0.1]);
    let report = save_in(&mut draft, &backlog, &tmp.bare("unused.md"), None);
    assert_eq!(report.path, backlog.join("session 1.md"));
    assert!(
        !ludo.join("session 1.md").is_there(),
        "the save resurrected the note in the old folder"
    );
}

#[test]
fn the_external_edit_guard_survives_a_move() {
    // Where a reader would expect the hash to be rewritten. A rename moves
    // bytes without changing them, so the guard has to go on working at the
    // new path — and a file edited behind our back there must still stop a
    // save (invariant 4).
    let (tmp, store) = store();
    let mut draft = store.create_draft(Some("Ludo")).expect("create");
    append(&mut draft, "a finding", "2026-08-19T14:32:07+02:00", &[0.1]);

    let ludo = tmp.path().join("Ludo");
    let backlog = tmp.path().join("Backlog");
    save_in(&mut draft, &ludo, &ludo.join("session 1.md"), None);
    let hash_before = draft.meta().last_save_hash.clone();

    draft
        .move_to_project(drop_into(&ludo, &backlog, "Backlog"))
        .expect("the drop");
    assert_eq!(
        draft.meta().last_save_hash,
        hash_before,
        "the move rewrote the guard's hash"
    );

    // Untouched at the new path: the save goes through.
    append(&mut draft, "another", "2026-08-19T14:40:00+02:00", &[0.1]);
    draft
        .save_to(
            &backlog.join("session 1.md"),
            SaveOptions {
                notes_root: Some(&backlog.path),
                ..SaveOptions::default()
            },
        )
        .expect("save at the new path");

    // Edited at the new path: stopped, with nothing written.
    fs_write(backlog.join("session 1.md"), b"somebody typed this").expect("edit");
    let err = draft
        .save_to(
            &backlog.join("session 1.md"),
            SaveOptions {
                notes_root: Some(&backlog.path),
                ..SaveOptions::default()
            },
        )
        .expect_err("the guard");
    assert!(matches!(err, DraftError::SaveConflict { .. }), "{err:?}");
    assert_eq!(
        fs_read(backlog.join("session 1.md")).expect("read"),
        b"somebody typed this"
    );
}

#[test]
fn a_clash_asks_and_keep_both_numbers_around_it() {
    // The invariant-4 heart of the drop: a taken name stops
    // the drop dead — nothing written, nothing tagged — and the only
    // resolution numbers the newcomer. There is no overwrite answer.
    let (tmp, store) = store();
    let mut draft = store.create_draft(Some("Ludo")).expect("create");
    append(&mut draft, "a finding", "2026-08-19T14:32:07+02:00", &[0.1]);

    let ludo = tmp.path().join("Ludo");
    let backlog = tmp.path().join("Backlog");
    save_in(&mut draft, &ludo, &ludo.join("session 1.md"), None);
    fs_create_dir_all(&backlog).expect("target folder");
    fs_write(backlog.join("session 1.md"), b"someone else's note").expect("seed");

    let outcome = draft
        .move_to_project(drop_into(&ludo, &backlog, "Backlog"))
        .expect("a question, not a failure");
    assert_eq!(
        outcome,
        NoteMove::Clash {
            at: backlog.join("session 1.md").path,
            free: Some(backlog.join("session 1 (2).md").path),
        }
    );
    // Nothing at all happened: not the file, not the tag, not the binding.
    assert!(ludo.join("session 1.md").is_file(), "the file moved anyway");
    assert_eq!(draft.project(), Some("Ludo"));
    assert_eq!(draft.saved_path(), Some("session 1.md".to_owned()));
    assert_eq!(
        open(draft.dir()).expect("reopen").draft.project(),
        Some("Ludo"),
        "meta.json was written while a question was open"
    );

    // The answer.
    let outcome = draft
        .move_to_project(MoveOptions {
            clash: ClashChoice::KeepBoth,
            ..drop_into(&ludo, &backlog, "Backlog")
        })
        .expect("keep both");
    assert_eq!(
        outcome,
        NoteMove::Moved {
            from: ludo.join("session 1.md").path,
            to: backlog.join("session 1 (2).md").path,
            copied: false,
        }
    );
    assert_eq!(
        fs_read(backlog.join("session 1.md")).expect("read"),
        b"someone else's note",
        "keep both wrote over the note that was already there"
    );
    assert_eq!(draft.saved_path(), Some("session 1 (2).md".to_owned()));
}

#[test]
fn dropping_a_missing_note_recreates_it_from_the_store() {
    // The note's file is unreachable — its binding is relative to
    // a project the config no longer has — so the drop renders a fresh one
    // from the lines the store still holds. Nothing stays missing after a
    // drop, and nothing that was on disk is touched.
    let (tmp, store) = store();
    let mut draft = store.create_draft(Some("Gone")).expect("create");
    append(
        &mut draft,
        "the fence clips",
        "2026-08-19T14:32:07+02:00",
        &[0.1],
    );

    let gone = tmp.path().join("Gone");
    save_in(&mut draft, &gone, &gone.join("note.md"), None);
    assert_eq!(draft.saved_path(), Some("note.md".to_owned()));

    // The project has left the config: no old root, so the binding cannot
    // be resolved at all.
    let backlog = tmp.path().join("Backlog");
    let outcome = draft
        .move_to_project(MoveOptions {
            project: Some("Backlog"),
            old_root: None,
            new_root: Some(&backlog.path),
            ..MoveOptions::default()
        })
        .expect("the rescue");
    assert_eq!(
        outcome,
        NoteMove::Recreated {
            to: backlog.join("note.md").path
        }
    );

    assert_eq!(draft.project(), Some("Backlog"));
    assert_eq!(draft.saved_path(), Some("note.md".to_owned()));
    let written = fs_read_to_string(backlog.join("note.md")).expect("read");
    assert!(written.contains("the fence clips"), "{written}");
    // The old file — the one nothing could reach — is exactly where it was.
    assert!(gone.join("note.md").is_file(), "the old file was touched");

    // And it is a proper save: not dirty, hash recorded, so the guard works
    // at the new path from here on.
    assert!(!draft.dirty());
    assert!(draft.meta().last_save_hash.is_some());
}

#[test]
fn a_note_whose_file_was_deleted_is_recreated_rather_than_refused() {
    // The same rescue, one step less broken: the binding resolves, there is
    // simply nothing at the end of it. Refusing here would strand a note
    // whose file the user deleted in a file manager.
    let (tmp, store) = store();
    let mut draft = store.create_draft(Some("Ludo")).expect("create");
    append(&mut draft, "a finding", "2026-08-19T14:32:07+02:00", &[0.1]);

    let ludo = tmp.path().join("Ludo");
    let backlog = tmp.path().join("Backlog");
    save_in(&mut draft, &ludo, &ludo.join("session 1.md"), None);
    fs_remove_file(ludo.join("session 1.md")).expect("the user deleted it");

    let outcome = draft
        .move_to_project(drop_into(&ludo, &backlog, "Backlog"))
        .expect("the drop");
    assert_eq!(
        outcome,
        NoteMove::Recreated {
            to: backlog.join("session 1.md").path
        }
    );
    assert!(backlog.join("session 1.md").is_file());
}

#[test]
fn a_case_only_rename_is_not_an_occupied_target() {
    // On Windows `to.is_there()` finds the *source* through
    // the case-insensitive lookup, and refusing that made "Ludo.md" →
    // "ludo.md" impossible. On a case-sensitive filesystem the target
    // simply does not exist and the rename was always allowed — the same
    // assertions hold either way.
    let (tmp, store) = store();
    let mut draft = store.create_draft(None).expect("create");
    append(&mut draft, "a finding", "2026-08-15T14:32:07+02:00", &[0.1]);

    let root = tmp.path().join("notes");
    save_in(&mut draft, &root, &root.join("Ludo.md"), None);

    let report = draft.rename_note("ludo", Some(&root)).expect("rename");
    assert!(report.moved);
    assert_eq!(report.to, root.join("ludo.md"));
    assert_eq!(draft.saved_path(), Some("ludo.md".to_owned()));
    assert!(report.to.is_file(), "the renamed file is not there");
    // The content is the note's own, not something that was sitting there:
    // nothing was overwritten, because there was nothing else to overwrite.
    let written = fs_read_to_string(&report.to).expect("read back");
    assert!(written.contains("a finding"), "{written}");

    // And the refusal still stands for a target that is a different file.
    let occupied = root.join("theirs.md");
    fs_write(&occupied, b"somebody else's words").expect("write");
    let err = draft
        .rename_note("theirs", Some(&root))
        .expect_err("an occupied target");
    assert!(matches!(err, DraftError::NameTaken { .. }), "{err:?}");
    assert_eq!(
        fs_read(&occupied).expect("read back"),
        b"somebody else's words"
    );
}

#[test]
fn saving_renders_the_lines_that_are_on_disk_now() {
    // An edit lands in `lines.jsonl` behind the handle's back; the save
    // must read the log rather than anything it remembers.
    let (tmp, store) = store();
    let mut draft = store.create_draft(None).expect("create");
    append(
        &mut draft,
        "as transcribed",
        "2026-08-04T14:32:07+02:00",
        &[0.1],
    );
    append(
        &mut draft,
        "to be deleted",
        "2026-08-04T14:33:00+02:00",
        &[0.1],
    );

    let loaded = open(draft.dir()).expect("open");
    let mut edited = loaded.lines;
    edited[0].text = "as edited by the user".to_owned();
    edited[0].original = Some("as transcribed".to_owned());
    edited[1].deleted = true;
    let mut rewritten = Vec::new();
    for line in &edited {
        rewritten.extend_from_slice(&encode(&LogEntry::Line(line.clone())));
        rewritten.push(b'\n');
    }
    fs_write(draft.lines_path(), &rewritten).expect("rewrite lines");

    let target = tmp.path().join("notes.md");
    let report = draft.save_as(&target, None).expect("save");

    assert_eq!(report.lines, 1);
    assert_eq!(
        fs_read_to_string(&target).expect("read"),
        "- 14:32:07 — as edited by the user\n"
    );
}

#[test]
fn saving_an_empty_draft_writes_an_empty_file_rather_than_failing() {
    // Rendering is total; whether to offer this is the UI's problem.
    let (tmp, store) = store();
    let mut draft = store.create_draft(None).expect("create");

    let target = tmp.path().join("empty.md");
    let report = draft.save_as(&target, None).expect("save");

    assert_eq!(report.lines, 0);
    assert_eq!(report.bytes, 0);
    assert_eq!(fs_read_to_string(&target).expect("read"), "");
}

#[test]
fn an_edit_is_appended_and_folds_over_the_base_line() {
    let (_tmp, store) = store();
    let mut draft = store.create_draft(None).expect("create");
    let spoken = append(
        &mut draft,
        "the mennu does nothing",
        "2026-08-05T10:00:00+02:00",
        &[0.1],
    );
    let before = fs_read(draft.lines_path()).expect("read lines");

    let edited = draft
        .edit_line(&spoken.id, "the menu does nothing")
        .expect("edit");

    assert_eq!(edited.text, "the menu does nothing");
    assert_eq!(edited.original.as_deref(), Some("the mennu does nothing"));
    assert_eq!(
        edited.spoken_at, spoken.spoken_at,
        "an edit is not a re-stamp"
    );
    assert_eq!(edited.audio, spoken.audio, "the wav is untouched");
    assert!(draft.dir().join(&spoken.audio).is_file());

    // Appended, never rewritten: the base record's bytes are still there,
    // in front, exactly as they were.
    let after = fs_read(draft.lines_path()).expect("read lines");
    assert!(after.starts_with(&before), "lines.jsonl was rewritten");
    assert!(after.len() > before.len());

    // And a re-read agrees with what the edit returned.
    let loaded = open(draft.dir()).expect("reopen");
    assert_eq!(loaded.lines, vec![edited]);
    assert_eq!(loaded.skipped_lines, 0);
    assert_eq!(loaded.draft.line_count(), 1);
}

#[test]
fn the_last_edit_of_a_field_wins_and_original_is_always_the_base_text() {
    let (_tmp, store) = store();
    let mut draft = store.create_draft(None).expect("create");
    let spoken = append(
        &mut draft,
        "first pass",
        "2026-08-05T10:00:00+02:00",
        &[0.1],
    );

    draft.edit_line(&spoken.id, "second pass").expect("edit");
    draft.edit_line(&spoken.id, "third pass").expect("edit");

    let loaded = open(draft.dir()).expect("reopen");
    assert_eq!(loaded.lines[0].text, "third pass");
    // Not "second pass": the base record is the original, forever.
    assert_eq!(loaded.lines[0].original.as_deref(), Some("first pass"));
    // Three records for one line, all of them still on disk.
    let raw = fs_read_to_string(draft.lines_path()).expect("read");
    assert_eq!(raw.lines().filter(|l| !l.trim().is_empty()).count(), 3);
}

#[test]
fn a_no_op_edit_writes_nothing() {
    let (_tmp, store) = store();
    let mut draft = store.create_draft(None).expect("create");
    let spoken = append(&mut draft, "unchanged", "2026-08-05T10:00:00+02:00", &[0.1]);
    let before = fs_read(draft.lines_path()).expect("read");

    let same = draft
        .edit_line(&spoken.id, "unchanged")
        .expect("no-op edit");
    assert_eq!(same, spoken);
    // Deleting something that is already deleted is the same non-event.
    draft.set_deleted(&spoken.id, false).expect("no-op delete");

    assert_eq!(
        fs_read(draft.lines_path()).expect("read"),
        before,
        "a no-op edit grew the file"
    );
}

#[test]
fn a_soft_delete_hides_the_line_and_destroys_nothing() {
    let (tmp, store) = store();
    let mut draft = store.create_draft(None).expect("create");
    append(&mut draft, "keep me", "2026-08-05T10:00:00+02:00", &[0.1]);
    let gone = append(&mut draft, "drop me", "2026-08-05T10:00:05+02:00", &[0.2]);
    let audio = draft.dir().join(&gone.audio);

    let deleted = draft.set_deleted(&gone.id, true).expect("delete");
    assert!(deleted.deleted);
    assert_eq!(draft.line_count(), 1);

    // The record, the text and the wav are all still there.
    let loaded = open(draft.dir()).expect("reopen");
    assert_eq!(loaded.lines.len(), 2);
    assert_eq!(loaded.lines[1].text, "drop me");
    assert!(loaded.lines[1].deleted);
    assert!(audio.is_file(), "the audio of a deleted line was removed");
    assert_eq!(loaded.draft.line_count(), 1);

    // It simply stops being rendered (the save needed no change for this).
    let target = tmp.path().join("notes.md");
    let report = draft.save_as(&target, None).expect("save");
    assert_eq!(report.lines, 1);
    assert_eq!(
        fs_read_to_string(&target).expect("read"),
        "- 10:00:00 — keep me\n"
    );

    // Undelete brings it straight back, count and all.
    draft.set_deleted(&gone.id, false).expect("undelete");
    assert_eq!(draft.line_count(), 2);
    assert!(!open(draft.dir()).expect("reopen").lines[1].deleted);
}

#[test]
fn a_save_renders_the_folded_text_of_edited_lines() {
    let (tmp, store) = store();
    let mut draft = store.create_draft(None).expect("create");
    let first = append(
        &mut draft,
        "as transcribbed",
        "2026-08-05T14:32:07+02:00",
        &[0.1],
    );
    let second = append(
        &mut draft,
        "to be deleted",
        "2026-08-05T14:33:00+02:00",
        &[0.1],
    );

    draft
        .edit_line(&first.id, "as edited by the user")
        .expect("edit");
    draft.set_deleted(&second.id, true).expect("delete");

    let target = tmp.path().join("notes.md");
    let report = draft.save_as(&target, None).expect("save");

    assert_eq!(report.lines, 1);
    assert_eq!(
        fs_read_to_string(&target).expect("read"),
        "- 14:32:07 — as edited by the user\n"
    );
}

#[test]
fn editing_an_unknown_line_names_the_draft_and_the_id() {
    let (_tmp, store) = store();
    let mut draft = store.create_draft(None).expect("create");
    append(
        &mut draft,
        "the only line",
        "2026-08-05T10:00:00+02:00",
        &[0.1],
    );
    let before = fs_read(draft.lines_path()).expect("read");

    match draft.edit_line("01JNOSUCHLINE", "nope") {
        Err(DraftError::NoSuchLine { id, path }) => {
            assert_eq!(id, "01JNOSUCHLINE");
            assert_eq!(path, draft.dir());
        }
        other => panic!("expected NoSuchLine, got {other:?}"),
    }
    assert!(matches!(
        draft.set_deleted("01JNOSUCHLINE", true),
        Err(DraftError::NoSuchLine { .. })
    ));
    assert_eq!(fs_read(draft.lines_path()).expect("read"), before);
}

#[test]
fn an_edit_of_a_line_that_is_not_in_the_file_is_counted_and_kept() {
    let (_tmp, store) = store();
    let mut draft = store.create_draft(None).expect("create");
    append(
        &mut draft,
        "the real line",
        "2026-08-05T10:00:00+02:00",
        &[0.1],
    );
    let dir = draft.dir().clone();
    drop(draft);

    // An edit whose base record is not here — a copied file, a hand-edit, a
    // line whose record was itself mangled.
    let orphan = br#"{"edit_of":"01JGHOST","at":"2026-08-05T10:01:00+02:00","text":"nowhere"}"#;
    let lines_path = dir.join(LINES_FILE);
    let file = lines_path.clone();
    fs_append(&file, orphan).expect("write");
    fs_append(&file, b"\n").expect("newline");
    drop(file);

    let loaded = open(&dir).expect("open");
    assert_eq!(loaded.lines.len(), 1);
    assert_eq!(loaded.lines[0].text, "the real line");
    assert_eq!(loaded.skipped_lines, 1);
    // Skipped means skipped, not deleted.
    let bytes = fs_read(&lines_path).expect("read");
    assert!(
        bytes.windows(orphan.len()).any(|w| w == orphan),
        "the orphan edit was removed from the file"
    );
}

#[test]
fn a_draft_written_before_edits_existed_loads_byte_for_byte_the_same() {
    // No migration, no version bump: a file with only LineRecords in it has
    // to parse exactly as it did before this feature existed.
    let tmp = disk();
    let dir = tmp.path().join("01JDRAFT");
    fs_create_dir_all(dir.join(AUDIO_DIR)).expect("dirs");
    fs_write(
        dir.join(META_FILE),
        br#"{"version":1,"id":"01JDRAFT","created_at":"2026-08-03T10:00:00+02:00"}"#,
    )
    .expect("seed meta");
    let raw = b"{\"id\":\"01JLINEA\",\"spoken_at\":\"2026-08-03T10:00:00+02:00\",\
                \"text\":\"first\",\"audio\":\"audio/01JLINEA.wav\"}\n\
                {\"id\":\"01JLINEB\",\"spoken_at\":\"2026-08-03T10:00:05+02:00\",\
                \"text\":\"second\",\"deleted\":true,\"audio\":\"audio/01JLINEB.wav\"}\n";
    fs_write(dir.join(LINES_FILE), raw).expect("seed lines");

    let loaded = open(&dir).expect("open");

    assert_eq!(loaded.skipped_lines, 0);
    assert_eq!(loaded.lines.len(), 2);
    assert_eq!(loaded.lines[0].text, "first");
    assert!(loaded.lines[0].original.is_none());
    assert!(loaded.lines[1].deleted);
    assert_eq!(loaded.draft.line_count(), 1);
    assert_eq!(fs_read(dir.join(LINES_FILE)).expect("read"), raw);
}

#[test]
fn the_failed_flag_is_only_written_when_it_is_true() {
    // Old drafts have to stay byte-comparable, so an ordinary line must not
    // grow a `"failed":false` it never had.
    let (_tmp, store) = store();
    let mut draft = store.create_draft(None).expect("create");
    append(&mut draft, "ordinary", "2026-08-12T10:00:00+02:00", &[0.1]);
    let ok = fs_read_to_string(draft.lines_path()).expect("read");
    assert!(!ok.contains("failed"), "{ok}");

    append_failed(&mut draft, "2026-08-12T10:00:05+02:00", &[0.1]);
    let both = fs_read_to_string(draft.lines_path()).expect("read");
    assert!(both.contains("\"failed\":true"), "{both}");
}

#[test]
fn a_draft_written_before_failed_lines_existed_parses_and_renders_unchanged() {
    // The migration story: no version bump, no rewrite, and every line in a
    // file that predates the field reads `failed: false`.
    let tmp = disk();
    let dir = tmp.path().join("01JDRAFT");
    fs_create_dir_all(dir.join(AUDIO_DIR)).expect("dirs");
    fs_write(
        dir.join(META_FILE),
        br#"{"version":1,"id":"01JDRAFT","created_at":"2026-08-03T10:00:00+02:00"}"#,
    )
    .expect("seed meta");
    let raw = b"{\"id\":\"01JLINEA\",\"spoken_at\":\"2026-08-03T10:00:00+02:00\",\
                \"text\":\"first\",\"audio\":\"audio/01JLINEA.wav\"}\n\
                {\"id\":\"01JLINEB\",\"spoken_at\":\"2026-08-03T10:00:05+02:00\",\
                \"text\":\"second\",\"audio\":\"audio/01JLINEB.wav\"}\n";
    fs_write(dir.join(LINES_FILE), raw).expect("seed lines");

    let loaded = open(&dir).expect("open");

    assert_eq!(loaded.skipped_lines, 0);
    assert!(loaded.lines.iter().all(|line| !line.failed));
    assert_eq!(loaded.draft.line_count(), 2);
    assert_eq!(
        loaded
            .draft
            .preview_markdown(None, SessionDividers::Shown)
            .expect("render"),
        "- 10:00:00 — first\n- 10:00:05 — second\n"
    );
    assert_eq!(fs_read(dir.join(LINES_FILE)).expect("read"), raw);
}

#[test]
fn an_empty_edit_of_an_unresolved_failed_line_leaves_it_exactly_as_it_was() {
    // Nothing to change: the text is already empty, so the no-op guard
    // writes no record and the state stands.
    let (_tmp, store) = store();
    let mut draft = store.create_draft(None).expect("create");
    let record = append_failed(&mut draft, "2026-08-12T10:00:00+02:00", &[0.2]);
    let before = fs_read(draft.lines_path()).expect("read");

    let same = draft.edit_line(&record.id, "").expect("edit");

    assert!(same.failed);
    assert_eq!(draft.line_count(), 0);
    assert_eq!(fs_read(draft.lines_path()).expect("read"), before);
}

#[test]
fn a_move_is_appended_and_folds_to_the_new_order() {
    let (_tmp, store) = store();
    let mut draft = store.create_draft(None).expect("create");
    let (a, b, c) = three_lines(&mut draft);
    let before = fs_read(draft.lines_path()).expect("read lines");

    // "third" belongs right after "first".
    let folded = draft.move_line(&c, Some(&a)).expect("move");
    let ids: Vec<&str> = folded.iter().map(|line| line.id.as_str()).collect();
    assert_eq!(ids, vec![a.as_str(), c.as_str(), b.as_str()]);

    // Appended, never rewritten.
    let after = fs_read(draft.lines_path()).expect("read lines");
    assert!(after.starts_with(&before), "lines.jsonl was rewritten");

    // And a re-read folds to the same thing, with every line intact.
    let loaded = open(draft.dir()).expect("reopen");
    assert_eq!(order_of(&loaded.draft), vec![a.clone(), c.clone(), b]);
    assert_eq!(loaded.skipped_lines, 0);
    assert_eq!(loaded.draft.line_count(), 3, "a move is not a delete");

    // Moves fold sequentially: the second one starts from the first's result.
    draft.move_line(&a, Some(&c)).expect("second move");
    assert_eq!(order_of(&draft)[0], c);
}

#[test]
fn a_move_with_a_null_anchor_goes_to_the_top() {
    let (_tmp, store) = store();
    let mut draft = store.create_draft(None).expect("create");
    let (a, b, c) = three_lines(&mut draft);

    let folded = draft.move_line(&c, None).expect("move to top");
    let ids: Vec<&str> = folded.iter().map(|line| line.id.as_str()).collect();
    assert_eq!(ids, vec![c.as_str(), a.as_str(), b.as_str()]);
    assert_eq!(order_of(&draft), vec![c, a, b]);

    // `null` is written out, not omitted: absent must never be readable as
    // "to the top".
    let raw = fs_read_to_string(draft.lines_path()).expect("read");
    let last = raw.lines().last().expect("a record");
    assert!(last.contains(r#""after":null"#), "{last}");
}

#[test]
fn a_no_op_move_writes_nothing() {
    let (_tmp, store) = store();
    let mut draft = store.create_draft(None).expect("create");
    let (a, b, _c) = three_lines(&mut draft);
    let before = fs_read(draft.lines_path()).expect("read");

    // Already at the top; already directly after `a`; and after itself.
    draft.move_line(&a, None).expect("already at the top");
    draft.move_line(&b, Some(&a)).expect("already there");
    draft.move_line(&b, Some(&b)).expect("after itself");

    assert_eq!(
        fs_read(draft.lines_path()).expect("read"),
        before,
        "a no-op move grew the file"
    );
}

#[test]
fn moving_an_unknown_line_or_to_an_unknown_anchor_names_the_missing_id() {
    let (_tmp, store) = store();
    let mut draft = store.create_draft(None).expect("create");
    let (a, _b, _c) = three_lines(&mut draft);
    let before = fs_read(draft.lines_path()).expect("read");

    match draft.move_line("01JNOSUCHLINE", Some(&a)) {
        Err(DraftError::NoSuchLine { id, path }) => {
            assert_eq!(id, "01JNOSUCHLINE");
            assert_eq!(path, draft.dir());
        }
        other => panic!("expected NoSuchLine, got {other:?}"),
    }
    match draft.move_line(&a, Some("01JNOSUCHANCHOR")) {
        Err(DraftError::NoSuchLine { id, .. }) => assert_eq!(id, "01JNOSUCHANCHOR"),
        other => panic!("expected NoSuchLine, got {other:?}"),
    }
    assert_eq!(fs_read(draft.lines_path()).expect("read"), before);
}

#[test]
fn an_orphan_or_badly_anchored_move_is_counted_and_kept() {
    let (_tmp, store) = store();
    let mut draft = store.create_draft(None).expect("create");
    let (a, b, _c) = three_lines(&mut draft);
    let dir = draft.dir().clone();
    drop(draft);

    // Three moves a hand-edit could produce: no such line, no such anchor,
    // and a line after itself. None of them may rearrange anything.
    let orphans = [
        format!(r#"{{"move_of":"01JGHOST","at":"2026-08-05T10:01:00+02:00","after":"{a}"}}"#),
        format!(r#"{{"move_of":"{a}","at":"2026-08-05T10:01:00+02:00","after":"01JGHOST"}}"#),
        format!(r#"{{"move_of":"{b}","at":"2026-08-05T10:01:00+02:00","after":"{b}"}}"#),
        // No `after` at all: required-but-nullable, so this is malformed.
        format!(r#"{{"move_of":"{b}","at":"2026-08-05T10:01:00+02:00"}}"#),
    ];
    let lines_path = dir.join(LINES_FILE);
    let file = lines_path.clone();
    for orphan in &orphans {
        fs_append(&file, orphan.as_bytes()).expect("write");
        fs_append(&file, b"\n").expect("newline");
    }
    drop(file);

    let loaded = open(&dir).expect("open");
    let ids: Vec<&str> = loaded.lines.iter().map(|line| line.id.as_str()).collect();
    assert_eq!(ids.len(), 3);
    assert_eq!(ids[0], a);
    assert_eq!(ids[1], b);
    // The self-move is a harmless nothing; the other three are skips. A
    // record missing `after` is malformed, not "to the top".
    assert_eq!(loaded.skipped_lines, 3);

    // Skipped means skipped, not deleted.
    let bytes = fs_read(&lines_path).expect("read");
    for orphan in &orphans {
        assert!(
            bytes
                .windows(orphan.len())
                .any(|window| window == orphan.as_bytes()),
            "a skipped move was removed from the file: {orphan}"
        );
    }
}

#[test]
fn a_draft_written_before_moves_existed_folds_in_file_order() {
    // Old files parse byte-for-byte identically: the move fold is the
    // identity permutation when there is nothing to fold.
    let tmp = disk();
    let dir = tmp.path().join("01JDRAFT");
    fs_create_dir_all(dir.join(AUDIO_DIR)).expect("dirs");
    fs_write(
        dir.join(META_FILE),
        br#"{"version":1,"id":"01JDRAFT","created_at":"2026-08-03T10:00:00+02:00"}"#,
    )
    .expect("seed meta");
    let raw = b"{\"id\":\"01JLINEA\",\"spoken_at\":\"2026-08-03T10:00:00+02:00\",\
                \"text\":\"first\",\"audio\":\"audio/01JLINEA.wav\"}\n\
                {\"id\":\"01JLINEB\",\"spoken_at\":\"2026-08-03T10:00:05+02:00\",\
                \"text\":\"second\",\"audio\":\"audio/01JLINEB.wav\"}\n\
                {\"edit_of\":\"01JLINEA\",\"at\":\"2026-08-03T11:00:00+02:00\",\
                \"text\":\"first, tidied\"}\n";
    fs_write(dir.join(LINES_FILE), raw).expect("seed lines");

    let loaded = open(&dir).expect("open");

    assert_eq!(loaded.skipped_lines, 0);
    let ids: Vec<&str> = loaded.lines.iter().map(|line| line.id.as_str()).collect();
    assert_eq!(ids, vec!["01JLINEA", "01JLINEB"]);
    assert_eq!(loaded.lines[0].text, "first, tidied");
    assert_eq!(loaded.lines[0].original.as_deref(), Some("first"));
    assert_eq!(fs_read(dir.join(LINES_FILE)).expect("read"), raw);
}

#[test]
fn a_save_renders_the_folded_order_with_the_original_timestamps() {
    // The accepted cost of reordering: the stamps
    // stop being chronological, because they are still the moments the
    // lines were spoken.
    let (tmp, store) = store();
    let mut draft = store.create_draft(None).expect("create");
    let first = append(
        &mut draft,
        "spoken first",
        "2026-08-05T14:32:07+02:00",
        &[0.1],
    );
    let second = append(
        &mut draft,
        "spoken second",
        "2026-08-05T14:33:11+02:00",
        &[0.1],
    );
    append(
        &mut draft,
        "spoken third",
        "2026-08-05T14:35:00+02:00",
        &[0.1],
    );

    draft.move_line(&second.id, None).expect("move to top");
    draft.set_deleted(&first.id, true).expect("delete");

    let target = tmp.path().join("notes.md");
    let report = draft.save_as(&target, None).expect("save");

    assert_eq!(report.lines, 2);
    assert_eq!(
        fs_read_to_string(&target).expect("read"),
        "- 14:33:11 — spoken second\n- 14:35:00 — spoken third\n"
    );
}

#[test]
fn an_edited_line_arrives_as_a_base_record_plus_one_edit_and_folds_identically() {
    let (_tmp, _store, mut from, mut into) = two_drafts();
    let spoken = append(
        &mut from,
        "the date picker closes to soon",
        "2026-08-19T14:31:12+02:00",
        &[0.25, -0.25],
    );
    from.edit_line(&spoken.id, "the date picker closes too soon")
        .expect("edit");

    let moved = from.export_line(&spoken.id).expect("export");
    let arrived = into.import_line(&moved, true).expect("import");

    // The fold the writer reported and the fold a re-read reports are the
    // same fold — the property every correction path here is held to.
    let reread = only_line(&into);
    assert_eq!(reread, arrived);
    assert_eq!(reread.text, "the date picker closes too soon");
    assert_eq!(
        reread.original.as_deref(),
        Some("the date picker closes to soon"),
        "the edit history travelled: the base record carries what was spoken"
    );
    assert_eq!(reread.spoken_at, ts("2026-08-19T14:31:12+02:00"));
    assert!(!reread.deleted);
    assert!(!reread.failed);
    assert_eq!(reread.transcribe_ms, Some(42));

    // Structurally: one base record with the *original* words, and one edit
    // replaying the tidy-up. Two records, no new shape.
    let raw = fs_read_to_string(into.lines_path()).expect("read log");
    let records: Vec<&str> = raw.lines().filter(|line| !line.is_empty()).collect();
    assert_eq!(
        records.len(),
        2,
        "base + edit, and nothing else: {records:?}"
    );
    let base = match decode(records[0]) {
        LogEntry::Line(base) => base,
        other => panic!("not a base record: {other:?}"),
    };
    assert_eq!(base.text, "the date picker closes to soon");
    assert_eq!(base.original, None, "`original` is derived, never written");
    let edit = match decode(records[1]) {
        LogEntry::Edit(edit) => edit,
        other => panic!("not an edit record: {other:?}"),
    };
    assert_eq!(edit.edit_of, base.id);
    assert_eq!(
        edit.text.as_deref(),
        Some("the date picker closes too soon")
    );
    assert_eq!(edit.deleted, None);
}

#[test]
fn an_unedited_line_arrives_as_one_record_and_no_edit() {
    let (_tmp, _store, mut from, mut into) = two_drafts();
    let spoken = append(
        &mut from,
        "the table redraws twice",
        "2026-08-19T14:31:40+02:00",
        &[0.1],
    );

    let moved = from.export_line(&spoken.id).expect("export");
    into.import_line(&moved, true).expect("import");

    let raw = fs_read_to_string(into.lines_path()).expect("read log");
    let records: Vec<&str> = raw.lines().filter(|line| !line.is_empty()).collect();
    assert_eq!(
        records.len(),
        1,
        "a line with nothing to replay must not grow an edit: {records:?}"
    );
    let arrived = only_line(&into);
    assert_eq!(arrived.text, "the table redraws twice");
    assert_eq!(arrived.original, None);
    assert_eq!(into.line_count(), 1);
}

#[test]
fn the_wav_arrives_as_an_identical_byte_copy_under_a_fresh_id() {
    let (_tmp, _store, mut from, mut into) = two_drafts();
    let samples: Vec<f32> = (0..400).map(|i| (i as f32 / 200.0) - 1.0).collect();
    let spoken = append(
        &mut from,
        "loud enough to matter",
        "2026-08-19T14:33:00+02:00",
        &samples,
    );

    let moved = from.export_line(&spoken.id).expect("export");
    assert!(moved.has_audio());
    into.import_line(&moved, true).expect("import");

    let arrived = only_line(&into);
    assert_ne!(
        arrived.id, spoken.id,
        "ids are never reused across drafts — `line_audio(draft, line)` \
         would be ambiguous while the line sits in both"
    );
    assert_eq!(
        arrived.audio,
        format!("{AUDIO_DIR}/{}.wav", arrived.id),
        "the stored path names the id it really has"
    );

    let source_bytes = fs_read(from.dir().join(&spoken.audio)).expect("source wav");
    let copied = fs_read(into.dir().join(&arrived.audio)).expect("copied wav");
    assert_eq!(copied, source_bytes, "no decode, no re-encode");
    // And the source's own wav is exactly where it was.
    assert!(from.dir().join(&spoken.audio).is_file());
}

#[test]
fn a_line_whose_wav_is_gone_still_moves() {
    // The design rule: nothing is discarded because a dependency
    // failed. The words are the note; the missing audio is carried as
    // missing, exactly as the source had it.
    let (_tmp, _store, mut from, mut into) = two_drafts();
    let spoken = append(
        &mut from,
        "this one lost its audio",
        "2026-08-19T14:34:00+02:00",
        &[0.1],
    );
    fs_remove_file(from.dir().join(&spoken.audio)).expect("remove the wav");

    let moved = from.export_line(&spoken.id).expect("export");
    assert!(!moved.has_audio());
    let arrived = into.import_line(&moved, true).expect("import");

    assert_eq!(arrived.text, "this one lost its audio");
    assert_eq!(
        arrived.audio,
        format!("{AUDIO_DIR}/{}.wav", arrived.id),
        "the record names the wav it would have had, exactly as the source did"
    );
    assert!(
        !into.dir().join(&arrived.audio).is_there(),
        "and no empty stand-in was invented for it"
    );
    assert_eq!(only_line(&into), arrived);
}

#[test]
fn a_moved_line_leaves_the_source_soft_deleted_with_its_records_and_wav_intact() {
    let (_tmp, _store, mut from, mut into) = two_drafts();
    let stays = append(&mut from, "stays put", "2026-08-19T14:30:00+02:00", &[0.1]);
    let goes = append(&mut from, "goes away", "2026-08-19T14:35:00+02:00", &[0.2]);
    let before = fs_read(from.lines_path()).expect("read the source log");

    let moved = from.export_line(&goes.id).expect("export");
    into.import_line(&moved, true).expect("import");
    // The caller's last step, and it is the ordinary soft delete — which is
    // what makes leaving the source one `line_set_deleted` to undo.
    from.set_deleted(&goes.id, true).expect("soft delete");

    let source = open(from.dir()).expect("reopen the source");
    assert_eq!(source.lines.len(), 2, "nothing was removed from the log");
    assert!(source.lines[1].deleted);
    assert_eq!(source.lines[1].text, "goes away");
    assert_eq!(source.draft.line_count(), 1);
    assert!(!source.lines[0].deleted);
    assert_eq!(source.lines[0].id, stays.id);
    // Append-only, byte for byte: the log grew and nothing in it moved.
    let after = fs_read(from.lines_path()).expect("read the source log");
    assert!(after.starts_with(&before), "the source log was rewritten");
    assert!(
        from.dir().join(&goes.audio).is_file(),
        "the source's wav is untouched — the delete is soft"
    );
}

#[test]
fn exporting_a_line_this_draft_does_not_have_names_it_and_writes_nothing() {
    let (_tmp, _store, from, _into) = two_drafts();
    let err = from
        .export_line("01JCPMOVENOTHINGHERE00")
        .expect_err("refused");
    match err {
        DraftError::NoSuchLine { id, path } => {
            assert_eq!(id, "01JCPMOVENOTHINGHERE00");
            assert_eq!(path, from.dir());
        }
        other => panic!("expected NoSuchLine, got {other:?}"),
    }
    assert_eq!(
        fs_read(from.lines_path()).unwrap_or_default(),
        Vec::<u8>::new(),
        "an export writes nothing"
    );
}

#[test]
fn exporting_resolves_the_wav_from_the_id_and_refuses_a_crafted_one() {
    // The wav is found from the **id**, never from the record's `audio`
    // field, so a hand-written log cannot make a copy read some other file.
    let (_tmp, _store, mut from, _into) = two_drafts();
    let real = append(&mut from, "real", "2026-08-19T14:39:00+02:00", &[0.1]);
    fs_write(
        from.lines_path(),
        format!(
            "{}\n{}\n",
            String::from_utf8(encode(&LogEntry::Line(real.clone()))).expect("text"),
            r#"{"id":"..","spoken_at":"2026-08-19T14:40:00+02:00","text":"crafted","audio":"../../secrets.wav"}"#
        ),
    )
    .expect("write a hand-edited log");

    let err = from.export_line("..").expect_err("refused");
    assert!(matches!(err, DraftError::BadId { .. }), "{err:?}");
    // And the honest record beside it still moves.
    assert!(from.export_line(&real.id).is_ok());
}

#[test]
fn a_torn_tail_is_not_a_record_so_the_last_complete_one_decides() {
    // The rule says *complete*: a half-written record is bytes the loader
    // skips and leaves on disk, and it must not be able to make a note grow
    // a second divider. The repair newline is the ordinary append path's.
    let (_tmp, _store, mut from, mut into) = two_drafts();
    append(
        &mut into,
        "already here",
        "2026-08-20T09:00:00+02:00",
        &[0.1],
    );
    into.mark_session().expect("marker");
    let mut log = fs_read(into.lines_path()).expect("read log");
    log.extend_from_slice(br#"{"id":"01JCPTORN"#);
    fs_write(into.lines_path(), &log).expect("write a torn log");
    let mut into = open(into.dir()).expect("reopen").draft;

    let spoken = append(
        &mut from,
        "stitched in",
        "2026-08-20T10:00:00+02:00",
        &[0.1],
    );
    let moved = from.export_line(&spoken.id).expect("export");
    into.import_line(&moved, true).expect("import");

    assert_eq!(
        shapes(&into),
        vec!["line", "marker", "junk", "line"],
        "no second marker, and the torn bytes are still there"
    );
    assert_eq!(sessions_of(&into), vec![0, 1]);
}

#[test]
fn a_malformed_marker_is_skipped_counted_and_left_on_disk() {
    // A marker with no readable timestamp is not a marker: silently
    // splitting the note somewhere nobody asked for would be worse than
    // reporting an unreadable line.
    let (_tmp, store) = store();
    let mut draft = store.create_draft(None).expect("create");
    append(&mut draft, "before", "2026-08-05T10:00:00+02:00", &[0.1]);
    let dir = draft.dir().clone();
    drop(draft);

    let broken = br#"{"session_at":"not a timestamp"}"#;
    let lines_path = dir.join(LINES_FILE);
    let file = lines_path.clone();
    fs_append(&file, broken).expect("write");
    fs_append(&file, b"\n").expect("newline");
    drop(file);

    let mut draft = open(&dir).expect("open").draft;
    append(&mut draft, "after", "2026-08-06T10:00:00+02:00", &[0.1]);

    let loaded = open(&dir).expect("reopen");
    assert_eq!(loaded.skipped_lines, 1);
    assert_eq!(loaded.lines.len(), 2);
    // No split happened, because there was no readable marker.
    assert_eq!(sessions_of(&loaded.draft), vec![0, 0]);
    let bytes = fs_read(&lines_path).expect("read");
    assert!(
        bytes.windows(broken.len()).any(|w| w == broken),
        "the malformed marker was removed from the file"
    );
}

#[test]
fn a_draft_written_before_markers_existed_loads_byte_for_byte_the_same() {
    // The third time this pin is made (edits, moves, now markers) and for
    // the same reason: no migration, no version bump, and every line in an
    // old draft is session 0.
    let tmp = disk();
    let dir = tmp.path().join("01JDRAFT");
    fs_create_dir_all(dir.join(AUDIO_DIR)).expect("dirs");
    fs_write(
        dir.join(META_FILE),
        br#"{"version":1,"id":"01JDRAFT","created_at":"2026-08-03T10:00:00+02:00"}"#,
    )
    .expect("seed meta");
    let raw = b"{\"id\":\"01JLINEA\",\"spoken_at\":\"2026-08-03T10:00:00+02:00\",\
                \"text\":\"first\",\"audio\":\"audio/01JLINEA.wav\"}\n\
                {\"id\":\"01JLINEB\",\"spoken_at\":\"2026-08-03T10:00:05+02:00\",\
                \"text\":\"second\",\"audio\":\"audio/01JLINEB.wav\"}\n";
    fs_write(dir.join(LINES_FILE), raw).expect("seed lines");

    let loaded = open(&dir).expect("open");

    assert_eq!(loaded.skipped_lines, 0);
    assert_eq!(sessions_of(&loaded.draft), vec![0, 0]);
    assert_eq!(fs_read(dir.join(LINES_FILE)).expect("read"), raw);

    // And with dividers on, an old draft renders exactly as it always did.
    assert_eq!(
        loaded
            .draft
            .preview_markdown(None, SessionDividers::Shown)
            .expect("render"),
        "- 10:00:00 — first\n- 10:00:05 — second\n"
    );
}

#[test]
fn a_save_renders_the_divider_and_turning_it_off_renders_the_old_bytes() {
    let (_tmp, store) = store();
    let mut draft = store.create_draft(None).expect("create");
    append(&mut draft, "monday", "2026-08-03T10:00:00+02:00", &[0.1]);
    draft.mark_session().expect("marker");
    append(&mut draft, "tuesday", "2026-08-04T09:30:00+02:00", &[0.1]);

    let target = _tmp.path().join("note.md");
    draft
        .save_as_with(&target, None, SaveMode::Guarded, SessionDividers::Shown)
        .expect("save");
    assert_eq!(
        fs_read_to_string(&target).expect("read"),
        "- 10:00:00 — monday\n\n---\n\n- 09:30:00 — tuesday\n"
    );

    // Off is the file as it was before markers existed, byte for byte. The
    // guard is re-armed by each save, so this is not a conflict with the
    // file above.
    draft
        .save_with(None, SaveMode::Guarded, SessionDividers::Hidden)
        .expect("save without dividers");
    assert_eq!(
        fs_read_to_string(&target).expect("read"),
        "- 10:00:00 — monday\n- 09:30:00 — tuesday\n"
    );
}

#[test]
fn a_preview_is_exactly_what_a_save_would_write() {
    // The conflict dialog shows the preview beside the file on disk, so a
    // preview that differed from the save would be a lie about what
    // Overwrite is going to do.
    let (_tmp, store) = store();
    let mut draft = store.create_draft(None).expect("create");
    append(&mut draft, "monday", "2026-08-03T10:00:00+02:00", &[0.1]);
    draft.mark_session().expect("marker");
    append(&mut draft, "tuesday", "2026-08-04T09:30:00+02:00", &[0.1]);

    let preview = draft
        .preview_markdown(Some("# Notes"), SessionDividers::Shown)
        .expect("preview");
    let target = _tmp.path().join("note.md");
    draft
        .save_as_with(
            &target,
            Some("# Notes"),
            SaveMode::Guarded,
            SessionDividers::Shown,
        )
        .expect("save");
    assert_eq!(fs_read_to_string(&target).expect("read"), preview);
}

#[test]
fn the_matcher_reads_a_torn_tail_draft_exactly_as_the_loader_left_it() {
    let (_tmp, store) = store();
    let mut draft = store.create_draft(None).expect("create");
    let dir = draft.dir().clone();
    append(
        &mut draft,
        "the table flickers",
        "2026-08-05T10:00:00+02:00",
        &[0.1],
    );
    append(
        &mut draft,
        "nothing to see",
        "2026-08-05T10:00:01+02:00",
        &[0.1],
    );
    drop(draft);

    // Exactly what a concurrent append looks like to a reader: half a
    // record, no newline. `Draft::open` skips it and rewrites nothing, so
    // the scan is safe to run over the note the worker is writing into.
    let file = dir.join(LINES_FILE).clone();
    fs_append(&file, br#"{"id":"01HALF","text":"the table ag"#).expect("write");
    drop(file);

    let loaded = open(&dir).expect("open");
    let term = SearchTerm::parse("TABLE").expect("term");
    assert_eq!(matching_lines(&term, &loaded.lines), vec![0]);
    assert_eq!(loaded.skipped_lines, 1);
}

#[test]
fn listing_a_missing_root_is_empty_not_an_error() {
    let (_tmp, store) = store();
    let scan = store.list_drafts().expect("list");
    assert!(scan.drafts.is_empty());
    assert!(scan.rejected.is_empty());
}

#[test]
fn sweeping_a_store_with_no_trash_is_a_zeroed_result() {
    let (_tmp, store) = store();
    assert_eq!(store.sweep_trash(trash_retention()).expect("sweep"), TrashSweep::default());
}

#[test]
fn an_entry_of_unknown_age_is_never_swept() {
    let at = |secs: i64| Stamp { secs, nanos: 0, offset: 0 };
    let now_secs = 1_800_000_000;
    let week_secs = 7 * 24 * 60 * 60;
    let now = at(now_secs);
    let a_week = Duration::from_secs(7 * 24 * 60 * 60);
    assert_eq!(discard_age(None, None, now), None);
    assert_eq!(discard_age(Some("not a timestamp"), None, now), None);

    // A missing or unreadable marker falls back to the modified time.
    assert_eq!(
        discard_age(None, Some(at(now_secs - week_secs)), now),
        Some(a_week),
        "the modified time is the fallback"
    );
    assert_eq!(
        discard_age(Some("{}"), Some(at(now_secs - week_secs)), now),
        Some(a_week),
        "an unparseable marker falls back too"
    );

    // The marker wins when it parses, and a future stamp reads as brand new
    // rather than as unknown.
    let stamp = stamp_text(at(now_secs - week_secs));
    assert_eq!(discard_age(Some(&stamp), Some(now), now), Some(a_week));
    let future = stamp_text(at(now_secs + week_secs));
    assert_eq!(discard_age(Some(&future), None, now), Some(Duration::zero()));
    assert!(!is_past_retention(None, Duration::zero()));
    assert!(is_past_retention(Some(a_week), a_week));
}

#[test]
fn resolve_binding_is_the_one_rule_both_sides_use() {
    let root = rel("/notes/ludo");
    assert_eq!(
        resolve_binding(&rel("note.md"), Some(&root)),
        Some(rel("/notes/ludo/note.md"))
    );
    assert_eq!(resolve_binding(&rel("note.md"), None), None);
    // Absolute wins over any root, including a different one.
    let absolute = rel("/elsewhere/note.md");
    assert_eq!(resolve_binding(&absolute, Some(&root)), Some(absolute.clone()));
    assert_eq!(resolve_binding(&absolute, None), Some(absolute));
    // And a binding is relative exactly when the file lies in the folder.
    assert_eq!(binding_for(&rel("/notes/ludo/a/b.md"), Some(&root)), rel("a/b.md"));
    assert_eq!(binding_for(&rel("/notes/b.md"), Some(&root)), rel("/notes/b.md"));
}

#[test]
fn default_drafts_dir_ends_in_drafts() {
    assert_eq!(default_drafts_dir().file_name().as_deref(), Some("drafts"));
    assert_eq!(drafts_dir_under(Some(rel("/data"))).text(), "/data/sotone/drafts");
    assert_eq!(drafts_dir_under(None).text(), "drafts");
}

/// Runs a move between two volumes to its end.
fn cross_volumes(from: &At, to: &At, writable: bool, copied: fn(Vec<u8>) -> Vec<u8>) -> VolumeMove {
    let mut state = VolumeMove::ReadSource;
    loop {
        let event = match &state {
            VolumeMove::ReadSource => match fs_read(from) {
                Some(bytes) => VolumeEvent::Read { bytes },
                None => VolumeEvent::Failed,
            },
            VolumeMove::WriteCopy { bytes } => {
                if writable {
                    fs_write(to, copied(bytes.clone()));
                    VolumeEvent::Finished
                } else {
                    VolumeEvent::Failed
                }
            }
            VolumeMove::ReadBack { .. } => match fs_read(to) {
                Some(bytes) => VolumeEvent::Read { bytes },
                None => VolumeEvent::Failed,
            },
            VolumeMove::RemoveSource => {
                fs_remove_file(from);
                VolumeEvent::Finished
            }
            VolumeMove::RemoveCopy => {
                fs_remove_file(to);
                VolumeEvent::Finished
            }
            VolumeMove::Done | VolumeMove::Stopped => return state,
        };
        state = move_across_volumes(state, event);
    }
}

#[test]
fn the_cross_volume_fallback_verifies_before_it_deletes_anything() {
    let dir = disk();
    let from = dir.join("here").join("session 1.md");
    let to = dir.join("there").join("session 1.md");
    fs_write(&from, b"- 14:32 the fence clips\n").expect("seed");

    assert_eq!(cross_volumes(&from, &to, true, |bytes| bytes), VolumeMove::Done);
    assert!(!from.is_there(), "the original outlived a verified move");
    assert_eq!(
        fs_read(&to).expect("read"),
        b"- 14:32 the fence clips\n",
        "the copy is not the original"
    );
    assert_eq!(to.path.parent().map(|p| dir.elsewhere(&p).entries().len()), Some(1));
}

#[test]
fn a_cross_volume_move_that_cannot_write_leaves_the_original_alone() {
    let dir = disk();
    let from = dir.join("session 1.md");
    let to = dir.join("not a folder").join("session 1.md");
    fs_write(&from, b"- 14:32 the fence clips\n").expect("seed");

    assert_eq!(cross_volumes(&from, &to, false, |bytes| bytes), VolumeMove::Stopped);
    assert_eq!(
        fs_read(&from).expect("read"),
        b"- 14:32 the fence clips\n",
        "the original was removed after a failed copy"
    );
}

#[test]
fn a_copy_that_is_not_the_original_is_removed_and_the_original_kept() {
    let dir = disk();
    let (from, to) = (dir.join("a.md"), dir.join("b.md"));
    fs_write(&from, b"the whole note").expect("seed");
    let torn = cross_volumes(&from, &to, true, |mut bytes| {
        bytes.truncate(4);
        bytes
    });
    assert_eq!(torn, VolumeMove::Stopped);
    assert!(from.is_file() && !to.is_there());
    assert!(!copy_matches(b"one", b"two") && copy_matches(b"one", b"one"));
    assert!(is_cross_device(Some(18), false) && is_cross_device(Some(17), true));
    assert!(!is_cross_device(Some(17), false) && !is_cross_device(None, true));
}

#[test]
fn a_full_folder_of_numbered_names_has_no_free_one() {
    let dir = rel("/notes");
    assert_eq!(first_free(&dir, "a.md", |_: &NotePath| true), None);
    let free = first_free(&dir, "a.md", |p: &NotePath| p.text() != "/notes/a (7).md");
    assert_eq!(free, Some(rel("/notes/a (7).md")));
    assert_eq!(first_free(&dir, "README", |_: &NotePath| false), Some(rel("/notes/README (2)")));
}

#[test]
fn every_error_names_its_path_and_says_what_happened() {
    let path = || rel("/drafts/01J");
    let cases = vec![
        DraftError::Io {
            action: "open the log".to_owned(),
            path: path(),
            reason: "denied".to_owned(),
        },
        DraftError::BadMeta { path: path(), reason: "broken".to_owned() },
        DraftError::Encode { path: path(), reason: "broken".to_owned() },
        DraftError::BadId { id: "..".to_owned(), path: path() },
        DraftError::Missing { path: path() },
        DraftError::NoSuchLine { id: "01L".to_owned(), path: path() },
        DraftError::TrashCollision { path: path() },
        DraftError::SaveConflict { path: path() },
        DraftError::NeverSaved { path: path() },
        DraftError::NameTaken { path: path() },
        DraftError::UnresolvedPath { path: path(), relative: rel("n.md") },
        DraftError::Wav { path: path(), reason: "broken".to_owned() },
        DraftError::SameDraft { path: path() },
    ];
    for error in &cases {
        assert_eq!(error.path(), &path());
        assert!(error.message().contains("/drafts/01J"), "{}", error.message());
    }
    let bad = DraftError::BadId { id: "a\"b".to_owned(), path: path() };
    assert!(bad.message().contains("\"a\\\"b\""), "{}", bad.message());
}

#[test]
fn a_piece_that_is_not_text_is_read_with_replacement_characters() {
    let parsed = parse_lines(b"\xff\xfe\n   \n", |piece: &str| {
        assert_eq!(piece, "\u{fffd}\u{fffd}");
        LogEntry::Malformed
    });
    assert_eq!(parsed.skipped, 1);
    assert!(!parsed.torn_tail);
    assert!(parsed.lines.is_empty());
}

#[test]
fn a_summary_reports_the_live_lines_and_the_binding() {
    let (tmp, store) = store();
    let mut draft = store.create_draft(Some("Ludo")).expect("create");
    append(&mut draft, "one", "2026-08-04T10:00:00+02:00", &[0.1]);
    let two = append(&mut draft, "two", "2026-08-04T10:00:01+02:00", &[0.1]);
    draft.set_deleted(&two.id, true).expect("delete");
    let root = tmp.path().join("notes");
    save_in(&mut draft, &root, &root.join("n.md"), None);

    let scan = store.list_drafts().expect("list");
    assert_eq!(scan.drafts.len(), 1);
    assert_eq!(scan.drafts[0].line_count, 1);
    assert_eq!(scan.drafts[0].project.as_deref(), Some("Ludo"));
    assert!(!scan.drafts[0].dirty);
    assert_eq!(draft.id().len(), 26);
    assert_eq!(open(draft.dir()).expect("open").draft.meta(), draft.meta());
    assert_eq!(draft.meta().version, META_VERSION);
    assert_eq!(TARGET_SAMPLE_RATE, 16_000);
}

#[test]
fn a_case_only_rename_is_one_file_under_two_names() {
    let (tmp, store) = store();
    let mut draft = store.create_draft(None).expect("create");
    append(&mut draft, "a finding", "2026-08-15T14:32:07+02:00", &[0.1]);
    let root = tmp.path().join("notes");
    save_in(&mut draft, &root, &root.join("Ludo.md"), None);

    // The target is found because it is this very file.
    let report = draft.inner.rename_note("ludo", Some(&root.path), true, true).expect("rename");
    assert!(report.moved);
    assert_eq!(report.to, root.join("ludo.md"));
    // Another file of that name is in the way.
    let err = draft.inner.rename_note("ludo", Some(&root.path), true, false).expect_err("taken");
    assert_eq!(err, DraftError::NameTaken { path: root.join("ludo.md").path });
}

#[test]
fn a_sweep_counts_what_could_not_be_deleted() {
    let (_tmp, store) = store();
    let at = |secs: i64| Stamp { secs, nanos: 0, offset: 0 };
    let entry = |name: &str, modified: Option<i64>| TrashEntry {
        dir: rel(name),
        marker: None,
        modified: modified.map(at),
    };
    let entries = vec![
        entry("/t/old", Some(0)),
        entry("/t/unknown", None),
        entry("/t/older", Some(-5)),
        entry("/t/young", Some(100)),
    ];
    let plan = store.inner.sweep_trash(&entries, at(100), Duration::from_secs(50));
    assert_eq!(plan.remove, vec![rel("/t/old"), rel("/t/older")]);
    assert_eq!(plan.done(1), TrashSweep { removed: 1, kept: 2, failed: 1 });
}

#[test]
fn an_id_names_one_directory_or_nothing() {
    assert!(is_plain_component("01JDRAFT"));
    for id in ["", ".", "..", ".trash", "a/b", "/a", "a/"] {
        assert!(!is_plain_component(id), "{id:?}");
    }
}

#[test]
fn audio_is_written_before_the_record_that_names_it() {
    let (_tmp, store) = store();
    let draft = store.create_draft(None).expect("create");
    let new = NewLine {
        text: "a finding".to_owned(),
        spoken_at: ts("2026-08-03T10:00:00+02:00"),
        samples: vec![1, -2, 300],
        transcribe_ms: None,
        failed: false,
    };
    let plan = draft.inner.append_line(new).expect("plan");
    match (&plan.steps[0], &plan.steps[1]) {
        (DraftStep::NewFile { path, bytes }, DraftStep::Append { record, .. }) => {
            assert!(path.text().ends_with(&plan.record.audio), "{}", path.text());
            assert_eq!(&bytes[44..], &[1, 0, 254, 255, 44, 1]);
            assert_eq!(*record, LogEntry::Line(plan.record.clone()));
        }
        other => panic!("{other:?}"),
    }
    assert_eq!(plan.steps[2], DraftStep::Meta);
    assert_eq!(plan.steps.len(), 3);
}

#[test]
fn an_id_with_a_separator_anywhere_names_nothing() {
    let store = DraftStore::new(NotePath::new("/drafts"));
    for id in ["a:/../../x", "C:/x", "a\\b/c", "a/", "/a", "a//b", "//a"] {
        assert!(!is_plain_component(id), "{id:?}");
        assert!(matches!(store.draft_path(id), Err(DraftError::BadId { .. })), "{id:?}");
        assert!(matches!(store.discard(id, true, false), Err(DraftError::BadId { .. })), "{id:?}");
        assert!(
            matches!(store.line_audio_path("d", id), Err(DraftError::BadId { .. })),
            "{id:?}"
        );
        assert!(
            matches!(store.line_audio_path(id, "l"), Err(DraftError::BadId { .. })),
            "{id:?}"
        );
    }
    assert!(is_plain_component("01JLINE"));
}

#[test]
fn a_binding_keeps_the_text_it_was_written_as() {
    let stored = NotePath::new("/notes//a.md");
    assert_eq!(stored, NotePath::new("/notes/a.md"));
    assert_eq!(stored.text(), "/notes//a.md");
    assert_eq!(stored.clone().text(), "/notes//a.md");
    let elsewhere = NotePath::new("/other");
    assert_eq!(binding_for(&stored, Some(&elsewhere)).text(), "/notes//a.md");
    assert_eq!(resolve_binding(&stored, None).expect("absolute").text(), "/notes//a.md");
    let root = NotePath::new("/notes");
    assert_eq!(binding_for(&stored, Some(&root)).text(), "a.md");
    let rel = NotePath::new("sub//a.md");
    assert_eq!(resolve_binding(&rel, Some(&root)).expect("under").text(), "/notes/sub//a.md");
}

#[test]
fn the_text_of_a_path_is_cut_and_not_rewritten() {
    let parent = |text: &str| NotePath::new(text).parent().map(|p| p.text());
    assert_eq!(parent("/d//x/"), Some("/d".to_owned()));
    assert_eq!(parent("//d//./x//y"), Some("//d//./x".to_owned()));
    assert_eq!(parent("/a"), Some("/".to_owned()));
    assert_eq!(parent("/"), None);
    assert_eq!(parent("a"), Some(String::new()));
    assert_eq!(parent("./a"), Some(".".to_owned()));
    assert_eq!(parent("../.a/.a"), Some("../.a".to_owned()));
    assert_eq!(parent("a\\b/c"), Some("a\\b".to_owned()));
    for text in ["/d//x/", "//d//./x//y", "/a", "./a", "../.a/.a", "a//b", "/a/./b/../c", "/..a/.b."] {
        let expected = std::path::Path::new(text).parent().map(|p| p.display().to_string());
        assert_eq!(parent(text), expected, "{text}");
    }

    for (text, base) in [
        ("/n//x//a.md", "/n"),
        ("/n/./x/a.md/", "/n/"),
        ("/n", "/n"),
        ("n//a", ""),
        ("/n/a", "/"),
        ("/n/.a/./.b", "/n/.a"),
    ] {
        let rest = NotePath::new(text).strip_prefix(&NotePath::new(base)).expect("below");
        let expected = std::path::Path::new(text).strip_prefix(base).expect("below");
        assert_eq!(rest.text(), expected.display().to_string(), "{text}");
    }

    for text in ["/notes//a.md", "a", "/", "..", "./", "/x//y/"] {
        let renamed = NotePath::new(text).with_file_name("b.md");
        let expected = std::path::Path::new(text).with_file_name("b.md");
        assert_eq!(renamed.text(), expected.display().to_string(), "{text}");
        assert_eq!(renamed, NotePath::new(&renamed.text()), "{text}");
    }

    for (base, rel) in [("/n", "a"), ("/n/", "a//b"), ("", "a"), ("n", ""), ("/n", "/m"), ("n", "./a")] {
        let joined = NotePath::new(base).join(&NotePath::new(rel));
        let expected = std::path::Path::new(base).join(rel);
        assert_eq!(joined.text(), expected.display().to_string(), "{base} {rel}");
        assert_eq!(joined, NotePath::new(&joined.text()), "{base} {rel}");
    }
}

#[test]
fn what_a_plan_names_is_written_as_it_was_given() {
    let store = DraftStore::new(NotePath::new("/data//drafts/"));
    assert_eq!(store.root().text(), "/data//drafts/");
    assert_eq!(store.trash_dir().text(), "/data//drafts/.trash");
    assert_eq!(store.draft_path("D").expect("path").text(), "/data//drafts/D");
    assert_eq!(store.discard("D", true, false).expect("target").text(), "/data//drafts/.trash/D");
    assert_eq!(
        store.line_audio_path("D", "L").expect("path").text(),
        "/data//drafts/D/audio/L.wav"
    );
    let missing = store.discard("D", false, false).expect_err("no such draft");
    assert_eq!(missing.message(), "there is no draft at /data//drafts/D");

    let now = Stamp { secs: 10, nanos: 0, offset: 0 };
    let entry = TrashEntry {
        dir: NotePath::new("/data//drafts/.trash//D"),
        marker: None,
        modified: Some(Stamp { secs: 1, nanos: 0, offset: 0 }),
    };
    let plan = store.sweep_trash(&vec![entry], now, Duration::zero());
    assert_eq!(plan.remove.len(), 1);
    assert_eq!(plan.remove[0].text(), "/data//drafts/.trash//D");
}
