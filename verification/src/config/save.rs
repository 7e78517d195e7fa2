//! Writing the typed settings back into the document.
//!
//! Only what differs is touched, so an unchanged part of the file stays as it
//! is, byte for byte.

use crate::config::document::{
    agree_on, are_placed, comes_behind, comments_agree, decor_at, decors, depth_of, drop_last_table,
    element_at, elements_at, field_at, fields, headers_from, insert_value, is_kept, is_value,
    key_decors, keys_of, list_view, nothing, only_touches, others_among, position_of,
    print_document, push_table, reads_back, remove_key, replace_value, root_of, shows, stands_below,
    start_tables, table_at, table_at_mut, table_below, table_count, table_keys, table_under,
    tables_at, texts, toml_parsed, toml_text, with_key, with_tables, without_key, Field, FieldView,
    Setting,
};
use crate::config::error::{ConfigError, ConfigErrorView};
use crate::config::laws::{
    a_save_is_read_back, a_saved_configuration_loads_as_it_was, a_saved_document_stays_editable,
    as_saved, editable, savable,
};
use crate::config::load::{config_in, config_problem, is_fresh, is_loaded};
use crate::config::project::{copy_list, plain_project, projects_view, Project, ProjectView};
use crate::config::settings::{Config, ConfigView};
use crate::config::words::{
    clamp_reveal_seconds, clamped_reveal, corner_word, onboarded_word, theme_word, OverlayCorner,
    Theme, DEFAULT_FILENAME_TEMPLATE, DEFAULT_HOTKEY, DEFAULT_LANGUAGE, DEFAULT_REVEAL_SECONDS,
    DEFAULT_TOGGLE_HOTKEY, ONBOARDED_WHEN_ABSENT,
};
use crate::path::PathView;
use crate::places::{default_models_dir, models_dir_in, path_to_string};
use crate::text::{opt_text, owned, same_text};
use toml_edit::{DocumentMut, Table};
use vstd::prelude::*;

verus! {

// ---------------------------------------------------------------------------
// What a save leaves alone
// ---------------------------------------------------------------------------

/// Where a value stays a value, what is written around it and around its key
/// stays too.
pub open spec fn comment_stays(a: Table, b: Table, key: Seq<char>) -> bool {
    fields(a).contains_key(key) && is_value(fields(a)[key]) && fields(b).contains_key(key)
        && is_value(fields(b)[key]) ==> decors(b)[key] == decors(a)[key] && key_decors(b)[key]
        == key_decors(a)[key]
}

/// The keys `after` are those `before`, in their order, without the ones taken
/// out, and behind them the ones that are new.
pub open spec fn follows(
    before: Seq<Seq<char>>,
    after: Seq<Seq<char>>,
    gone: Set<Seq<char>>,
    new: Seq<Seq<char>>,
) -> bool {
    &&& after == others_among(before, gone) + new
    &&& forall|key: Seq<char>| #[trigger] new.contains(key) ==> !before.contains(key)
}

/// Every key that stays keeps its place among the keys that stay, and new keys
/// come last.
pub open spec fn places_stay(before: Seq<Seq<char>>, after: Seq<Seq<char>>) -> bool {
    exists|gone: Set<Seq<char>>, new: Seq<Seq<char>>| #[trigger] follows(before, after, gone, new)
}

/// Only these keys were touched, every other key stands where it stood among the
/// others, no key that stays has moved, and no comment was lost.
pub open spec fn touched(a: Table, b: Table, keys: Set<Seq<char>>) -> bool {
    &&& others_among(keys_of(b), keys) == others_among(keys_of(a), keys)
    &&& places_stay(keys_of(a), keys_of(b))
    &&& position_of(b) == position_of(a)
    &&& forall|k: Seq<char>|
        !keys.contains(k) ==> #[trigger] agree_on(fields(a), fields(b), k) && decors(b)[k]
            == decors(a)[k] && key_decors(b)[k] == key_decors(a)[k]
    &&& forall|k: Seq<char>| #[trigger] comment_stays(a, b, k)
}

/// The keys are as they were, but that this one may have been added at the end or
/// taken out.
pub open spec fn keys_stepped(a: Seq<Seq<char>>, b: Seq<Seq<char>>, key: Seq<char>) -> bool {
    b == a || b == with_key(a, key) || b == without_key(a, key)
}

/// One step of a save: the table holds `m` now, nothing but the key was touched,
/// and where `m` is what it held before, nothing was touched at all.
pub open spec fn stepped(a: Table, b: Table, key: Seq<char>, m: Map<Seq<char>, FieldView>) -> bool {
    &&& fields(b) == m
    &&& only_touches(a, b, key)
    &&& keys_stepped(keys_of(a), keys_of(b), key)
    &&& comment_stays(a, b, key)
    &&& m == fields(a) ==> b == a
    &&& depth_of(b) <= depth_of(a)
    &&& is_kept(a) ==> is_kept(b)
}

proof fn lemma_others_members(keys: Seq<Seq<char>>, out: Set<Seq<char>>, x: Seq<char>)
    ensures
        others_among(keys, out).contains(x) <==> keys.contains(x) && !out.contains(x),
    decreases keys.len(),
{
    if keys.len() > 0 {
        let front = keys.drop_last();
        lemma_others_members(front, out, x);
        assert(keys =~= front.push(keys.last()));
        lemma_push_members(front, keys.last(), x);
        lemma_push_members(others_among(front, out), keys.last(), x);
    }
}

proof fn lemma_push_members(keys: Seq<Seq<char>>, last: Seq<char>, x: Seq<char>)
    ensures
        keys.push(last).contains(x) <==> keys.contains(x) || x == last,
{
    if keys.contains(x) {
        let i = choose|i: int| 0 <= i < keys.len() && keys[i] == x;
        assert(keys.push(last)[i] == x);
    }
    assert(keys.push(last)[keys.len() as int] == last);
}

proof fn lemma_others_joined(a: Seq<Seq<char>>, b: Seq<Seq<char>>, out: Set<Seq<char>>)
    ensures
        others_among(a + b, out) == others_among(a, out) + others_among(b, out),
    decreases b.len(),
{
    if b.len() == 0 {
        assert(a + b =~= a);
        assert(others_among(a, out) + others_among(b, out) =~= others_among(a, out));
    } else {
        let front = b.drop_last();
        lemma_others_joined(a, front, out);
        assert((a + b).drop_last() =~= a + front);
        assert((a + b).last() == b.last());
        assert(others_among(a + b, out) =~= others_among(a, out) + others_among(b, out));
    }
}

proof fn lemma_none_out(keys: Seq<Seq<char>>)
    ensures
        others_among(keys, Set::empty()) == keys,
    decreases keys.len(),
{
    if keys.len() > 0 {
        lemma_none_out(keys.drop_last());
        assert(keys =~= keys.drop_last().push(keys.last()));
    }
}

proof fn lemma_places_unmoved(keys: Seq<Seq<char>>)
    ensures
        places_stay(keys, keys),
{
    lemma_none_out(keys);
    assert(keys =~= others_among(keys, Set::empty()) + Seq::empty());
    assert(follows(keys, keys, Set::empty(), Seq::empty()));
}

/// One key added at the end, or taken out, leaves the others among themselves.
proof fn lemma_keys_stepped(a: Seq<Seq<char>>, b: Seq<Seq<char>>, key: Seq<char>)
    requires
        keys_stepped(a, b, key),
    ensures
        without_key(b, key) == without_key(a, key),
{
    let this = Set::empty().insert(key);
    if b == a.push(key) {
        assert(b.drop_last() =~= a);
    }
    lemma_others_twice(a, this, this);
    assert(this.union(this) =~= this);
}

/// Places that stay, after one change and another to other keys.
proof fn lemma_places_stay(
    x: Seq<Seq<char>>,
    y: Seq<Seq<char>>,
    z: Seq<Seq<char>>,
    some: Set<Seq<char>>,
    more: Set<Seq<char>>,
)
    requires
        others_among(y, some) == others_among(x, some),
        others_among(z, more) == others_among(y, more),
        some.disjoint(more),
        places_stay(x, y),
        places_stay(y, z),
    ensures
        places_stay(x, z),
{
    let (g1, n1) = choose|gone: Set<Seq<char>>, new: Seq<Seq<char>>| #[trigger]
        follows(x, y, gone, new);
    let (g2, n2) = choose|gone: Set<Seq<char>>, new: Seq<Seq<char>>| #[trigger]
        follows(y, z, gone, new);
    let new = others_among(n1, g2) + n2;
    lemma_others_joined(others_among(x, g1), n1, g2);
    lemma_others_twice(x, g1, g2);
    assert(z =~= others_among(x, g1.union(g2)) + new);
    assert forall|key: Seq<char>| #[trigger] new.contains(key) implies !x.contains(key) by {
        lemma_others_members(n1, g2, key);
        if !n1.contains(key) {
            let i = choose|i: int| 0 <= i < new.len() && new[i] == key;
            if i < others_among(n1, g2).len() {
                assert(others_among(n1, g2)[i] == key);
            } else {
                assert(n2[i - others_among(n1, g2).len()] == key);
            }
            assert(n2.contains(key));
            assert(z.contains(key)) by {
                let at = others_among(y, g2).len() + choose|j: int|
                    0 <= j < n2.len() && n2[j] == key;
                assert(z[at] == key);
            }
            lemma_others_members(y, more, key);
            lemma_others_members(z, more, key);
            assert(more.contains(key));
            lemma_others_members(x, some, key);
            lemma_others_members(y, some, key);
        }
    }
    assert(follows(x, z, g1.union(g2), new));
}

proof fn lemma_place_stepped(a: Seq<Seq<char>>, b: Seq<Seq<char>>, key: Seq<char>)
    requires
        keys_stepped(a, b, key),
    ensures
        places_stay(a, b),
{
    lemma_places_unmoved(a);
    if b == without_key(a, key) {
        assert(b =~= others_among(a, Set::empty().insert(key)) + Seq::empty());
        assert(follows(a, b, Set::empty().insert(key), Seq::empty()));
    } else if b != a {
        lemma_none_out(a);
        let new = Seq::empty().push(key);
        assert(b =~= others_among(a, Set::empty()) + new);
        assert forall|k: Seq<char>| #[trigger] new.contains(k) implies !a.contains(k) by {
            lemma_push_members(Seq::empty(), key, k);
        }
        assert(follows(a, b, Set::empty(), new));
    }
}

proof fn lemma_others_twice(keys: Seq<Seq<char>>, a: Set<Seq<char>>, b: Set<Seq<char>>)
    ensures
        others_among(others_among(keys, a), b) == others_among(keys, a.union(b)),
    decreases keys.len(),
{
    if keys.len() > 0 {
        let front = keys.drop_last();
        lemma_others_twice(front, a, b);
        let kept = others_among(front, a);
        if !a.contains(keys.last()) {
            assert(kept.push(keys.last()).drop_last() =~= kept);
        }
    }
}

/// Leaving out two sets of keys, one after the other, does not depend on which
/// comes first.
proof fn lemma_others_kept(
    x: Seq<Seq<char>>,
    y: Seq<Seq<char>>,
    z: Seq<Seq<char>>,
    a: Set<Seq<char>>,
    b: Set<Seq<char>>,
)
    requires
        others_among(y, a) == others_among(x, a),
        others_among(z, b) == others_among(y, b),
    ensures
        others_among(z, a.union(b)) == others_among(x, a.union(b)),
{
    assert(a.union(b) =~= b.union(a));
    lemma_others_twice(z, b, a);
    lemma_others_twice(y, b, a);
    lemma_others_twice(y, a, b);
    lemma_others_twice(x, a, b);
}

proof fn lemma_nothing_touched(a: Table)
    ensures
        touched(a, a, Set::empty()),
{
    lemma_places_unmoved(keys_of(a));
}

proof fn lemma_touch(
    a: Table,
    b: Table,
    c: Table,
    keys: Set<Seq<char>>,
    key: Seq<char>,
    m: Map<Seq<char>, FieldView>,
)
    requires
        touched(a, b, keys),
        stepped(b, c, key, m),
        !keys.contains(key),
    ensures
        touched(a, c, keys.insert(key)),
{
    let all = keys.insert(key);
    let this = Set::empty().insert(key);
    assert(all =~= keys.union(this));
    lemma_keys_stepped(keys_of(b), keys_of(c), key);
    lemma_place_stepped(keys_of(b), keys_of(c), key);
    lemma_others_kept(keys_of(a), keys_of(b), keys_of(c), keys, this);
    lemma_places_stay(keys_of(a), keys_of(b), keys_of(c), keys, this);
    assert forall|k: Seq<char>| !all.contains(k) implies #[trigger] agree_on(
        fields(a),
        fields(c),
        k,
    ) && decors(c)[k] == decors(a)[k] && key_decors(c)[k] == key_decors(a)[k] by {
        assert(agree_on(fields(a), fields(b), k));
        assert(agree_on(fields(b), fields(c), k));
    }
    assert forall|k: Seq<char>| #[trigger] comment_stays(a, c, k) by {
        if k == key {
            assert(agree_on(fields(a), fields(b), k));
            assert(comment_stays(b, c, k));
        } else {
            assert(comment_stays(a, b, k));
            assert(agree_on(fields(b), fields(c), k));
        }
    }
}

// ---------------------------------------------------------------------------
// One key
// ---------------------------------------------------------------------------

fn list_holds(table: &Table, key: &str, values: &Vec<String>) -> (r: bool)
    requires
        elements_at(fields(*table), key@) is Some,
    ensures
        r == (fields(*table)[key@] == texts(list_view(values@))),
{
    let ghost elements = elements_at(fields(*table), key@).unwrap();
    let ghost wanted = list_view(values@).map_values(|v: Seq<char>| FieldView::Text(v));
    let mut i: usize = 0;
    while i < values.len()
        invariant
            elements_at(fields(*table), key@) == Some(elements),
            wanted == list_view(values@).map_values(|v: Seq<char>| FieldView::Text(v)),
            i <= values@.len(),
            i <= elements.len(),
            forall|k: int| 0 <= k < i ==> #[trigger] elements[k] == wanted[k],
        decreases values@.len() - i,
    {
        proof {
            assert(wanted.len() == values@.len());
            assert(wanted[i as int] == FieldView::Text(values@[i as int]@));
        }
        match element_at(table, key, i) {
            Some(Field::Text(text)) => {
                if !same_text(&text, &values[i]) {
                    return false;
                }
            },
            _ => return false,
        }
        i = i + 1;
    }
    proof {
        assert(wanted.len() == values@.len());
    }
    match element_at(table, key, i) {
        Some(_) => false,
        None => {
            proof {
                assert(elements =~= wanted);
            }
            true
        },
    }
}

/// Does the key hold that already? By meaning, not by spelling.
pub fn values_equal(table: &Table, key: &str, new: &Setting) -> (r: bool)
    ensures
        r == (fields(*table).contains_key(key@) && fields(*table)[key@] == new@),
{
    match (field_at(table, key), new) {
        (Some(Field::Text(a)), Setting::Text(b)) => same_text(&a, b),
        (Some(Field::Flag(a)), Setting::Flag(b)) => a == *b,
        (Some(Field::Number(a)), Setting::Number(b)) => a == *b,
        (Some(Field::List), Setting::List(b)) => list_holds(table, key, b),
        _ => false,
    }
}

/// Puts a value under a key, keeping what is written around the old one. A key
/// that holds it already is left alone.
pub fn set_value(table: &mut Table, key: &str, new: Setting)
    ensures
        stepped(*old(table), *final(table), key@, fields(*old(table)).insert(key@, new@)),
{
    let ghost before = fields(*table);
    if values_equal(table, key, &new) {
        proof {
            assert(before =~= before.insert(key@, new@));
        }
        return;
    }
    proof {
        assert(before.insert(key@, new@).contains_key(key@));
        assert(before.insert(key@, new@)[key@] == new@);
    }
    match decor_at(table, key) {
        Some(decor) => replace_value(table, key, new, decor),
        None => insert_value(table, key, new),
    }
}

/// Is the key written in the file?
pub fn present(table: &Table, key: &str) -> (r: bool)
    ensures
        r == fields(*table).contains_key(key@),
{
    field_at(table, key).is_some()
}

/// A key that is not introduced just to restate a default.
pub open spec fn put_unless(
    m: Map<Seq<char>, FieldView>,
    key: Seq<char>,
    value: FieldView,
    default: FieldView,
) -> Map<Seq<char>, FieldView> {
    if !m.contains_key(key) && value == default {
        m
    } else {
        m.insert(key, value)
    }
}

/// A key that is there exactly when there is something to say. What is not a
/// value is not ours to remove.
pub open spec fn put_optional(
    m: Map<Seq<char>, FieldView>,
    key: Seq<char>,
    value: Option<Seq<char>>,
) -> Map<Seq<char>, FieldView> {
    match value {
        Some(text) => m.insert(key, FieldView::Text(text)),
        None => if m.contains_key(key) && is_value(m[key]) {
            m.remove(key)
        } else {
            m
        },
    }
}

/// A list that is not introduced just to be empty.
pub open spec fn put_list(
    m: Map<Seq<char>, FieldView>,
    key: Seq<char>,
    values: Seq<Seq<char>>,
) -> Map<Seq<char>, FieldView> {
    if !m.contains_key(key) && values.len() == 0 {
        m
    } else {
        m.insert(key, texts(values))
    }
}

/// Sets a text, unless that would only restate the default.
pub fn set_string_unless_default(table: &mut Table, key: &str, val: &str, default: &str)
    ensures
        stepped(
            *old(table),
            *final(table),
            key@,
            put_unless(
                fields(*old(table)),
                key@,
                FieldView::Text(val@),
                FieldView::Text(default@),
            ),
        ),
{
    if !present(table, key) && same_text(val, default) {
        return;
    }
    set_value(table, key, Setting::Text(owned(val)));
}

/// Sets a flag, unless that would only restate the default.
pub fn set_bool_unless_default(table: &mut Table, key: &str, val: bool, default: bool)
    ensures
        stepped(
            *old(table),
            *final(table),
            key@,
            put_unless(fields(*old(table)), key@, FieldView::Flag(val), FieldView::Flag(default)),
        ),
{
    if !present(table, key) && val == default {
        return;
    }
    set_value(table, key, Setting::Flag(val));
}

/// Sets a number, unless that would only restate the default.
pub fn set_u32_unless_default(table: &mut Table, key: &str, val: u32, default: u32)
    ensures
        stepped(
            *old(table),
            *final(table),
            key@,
            put_unless(
                fields(*old(table)),
                key@,
                FieldView::Number(val as i64),
                FieldView::Number(default as i64),
            ),
        ),
{
    if !present(table, key) && val == default {
        return;
    }
    set_value(table, key, Setting::Number(val as i64));
}

/// Sets an optional text, or takes its key out of the file.
pub fn set_optional_string(table: &mut Table, key: &str, val: &Option<String>)
    ensures
        stepped(
            *old(table),
            *final(table),
            key@,
            put_optional(fields(*old(table)), key@, opt_text(*val)),
        ),
{
    match val {
        Some(text) => set_value(table, key, Setting::Text(text.clone())),
        None => {
            let ghost before = fields(*table);
            if let Some(look) = field_at(table, key) {
                proof {
                    assert(shows(look, before[key@]));
                }
                if look.is_value() {
                    proof {
                        assert(!before.remove(key@).contains_key(key@));
                    }
                    remove_key(table, key);
                }
            }
        },
    }
}

/// Sets a list, unless it would only be introduced to be empty.
pub fn set_string_list(table: &mut Table, key: &str, values: &Vec<String>)
    ensures
        stepped(
            *old(table),
            *final(table),
            key@,
            put_list(fields(*old(table)), key@, list_view(values@)),
        ),
{
    if !present(table, key) && values.len() == 0 {
        return;
    }
    set_value(table, key, Setting::List(copy_list(values)));
}

// ---------------------------------------------------------------------------
// One project
// ---------------------------------------------------------------------------

/// The keys of a project's table.
pub open spec fn project_keys() -> Set<Seq<char>> {
    Set::empty().insert("name"@).insert("notes_dir"@).insert("filename_template"@).insert(
        "header_template"@,
    ).insert("model"@).insert("language"@).insert("vocabulary"@).insert("session_dividers"@)
}

/// How long the keys of a project's table are: no two are equally long.
pub proof fn lemma_project_keys()
    ensures
        "name"@.len() == 4,
        "notes_dir"@.len() == 9,
        "filename_template"@.len() == 17,
        "header_template"@.len() == 15,
        "model"@.len() == 5,
        "language"@.len() == 8,
        "vocabulary"@.len() == 10,
        "session_dividers"@.len() == 16,
{
    reveal_strlit("name");
    reveal_strlit("notes_dir");
    reveal_strlit("filename_template");
    reveal_strlit("header_template");
    reveal_strlit("model");
    reveal_strlit("language");
    reveal_strlit("vocabulary");
    reveal_strlit("session_dividers");
}

/// What a project's table holds once the project is written into it.
pub open spec fn with_project(m: Map<Seq<char>, FieldView>, p: ProjectView) -> Map<
    Seq<char>,
    FieldView,
> {
    let default = plain_project(Seq::empty(), Seq::empty());
    let m = m.insert("name"@, FieldView::Text(p.name));
    let m = put_unless(
        m,
        "notes_dir"@,
        FieldView::Text(p.notes_dir),
        FieldView::Text(default.notes_dir),
    );
    let m = put_unless(
        m,
        "filename_template"@,
        FieldView::Text(p.filename_template),
        FieldView::Text(default.filename_template),
    );
    let m = put_optional(m, "header_template"@, p.header_template);
    let m = put_optional(m, "model"@, p.model);
    let m = put_optional(m, "language"@, p.language);
    let m = put_list(m, "vocabulary"@, p.vocabulary);
    put_unless(
        m,
        "session_dividers"@,
        FieldView::Flag(p.session_dividers),
        FieldView::Flag(default.session_dividers),
    )
}

/// Every key of a project's table is as a save would leave it.
pub open spec fn project_settled(m: Map<Seq<char>, FieldView>, p: ProjectView) -> bool {
    let default = plain_project(Seq::empty(), Seq::empty());
    &&& m.insert("name"@, FieldView::Text(p.name)) == m
    &&& put_unless(
        m,
        "notes_dir"@,
        FieldView::Text(p.notes_dir),
        FieldView::Text(default.notes_dir),
    ) == m
    &&& put_unless(
        m,
        "filename_template"@,
        FieldView::Text(p.filename_template),
        FieldView::Text(default.filename_template),
    ) == m
    &&& put_optional(m, "header_template"@, p.header_template) == m
    &&& put_optional(m, "model"@, p.model) == m
    &&& put_optional(m, "language"@, p.language) == m
    &&& put_list(m, "vocabulary"@, p.vocabulary) == m
    &&& put_unless(
        m,
        "session_dividers"@,
        FieldView::Flag(p.session_dividers),
        FieldView::Flag(default.session_dividers),
    ) == m
}

/// Writes a project into its table.
pub fn sync_project(table: &mut Table, project: &Project)
    ensures
        fields(*final(table)) == with_project(fields(*old(table)), project@),
        touched(*old(table), *final(table), project_keys()),
        depth_of(*final(table)) <= depth_of(*old(table)),
        is_kept(*old(table)) ==> is_kept(*final(table)),
        project_settled(fields(*old(table)), project@) ==> *final(table) == *old(table),
{
    proof {
        lemma_project_keys();
        lemma_nothing_touched(*table);
        reveal_strlit("");
        assert(""@ =~= Seq::<char>::empty());
    }
    let ghost t0 = *table;
    let ghost keys = Set::<Seq<char>>::empty();
    set_value(table, "name", Setting::Text(project.name.clone()));
    let ghost t1 = *table;
    proof {
        lemma_touch(t0, t0, t1, keys, "name"@, fields(t1));
        keys = keys.insert("name"@);
    }
    set_string_unless_default(table, "notes_dir", &project.notes_dir, "");
    let ghost t2 = *table;
    proof {
        lemma_touch(t0, t1, t2, keys, "notes_dir"@, fields(t2));
        keys = keys.insert("notes_dir"@);
    }
    set_string_unless_default(
        table,
        "filename_template",
        &project.filename_template,
        DEFAULT_FILENAME_TEMPLATE,
    );
    let ghost t3 = *table;
    proof {
        lemma_touch(t0, t2, t3, keys, "filename_template"@, fields(t3));
        keys = keys.insert("filename_template"@);
    }
    set_optional_string(table, "header_template", &project.header_template);
    let ghost t4 = *table;
    proof {
        lemma_touch(t0, t3, t4, keys, "header_template"@, fields(t4));
        keys = keys.insert("header_template"@);
    }
    set_optional_string(table, "model", &project.model);
    let ghost t5 = *table;
    proof {
        lemma_touch(t0, t4, t5, keys, "model"@, fields(t5));
        keys = keys.insert("model"@);
    }
    set_optional_string(table, "language", &project.language);
    let ghost t6 = *table;
    proof {
        lemma_touch(t0, t5, t6, keys, "language"@, fields(t6));
        keys = keys.insert("language"@);
    }
    set_string_list(table, "vocabulary", &project.vocabulary);
    let ghost t7 = *table;
    proof {
        lemma_touch(t0, t6, t7, keys, "vocabulary"@, fields(t7));
        keys = keys.insert("vocabulary"@);
    }
    set_bool_unless_default(table, "session_dividers", project.session_dividers, true);
    proof {
        lemma_touch(t0, t7, *table, keys, "session_dividers"@, fields(*table));
    }
}

// ---------------------------------------------------------------------------
// The list of projects
// ---------------------------------------------------------------------------

/// The tables a list of projects is written over: the ones that are there, and
/// empty ones behind them.
pub open spec fn base_fields(base: Seq<Table>, i: int) -> Map<Seq<char>, FieldView> {
    if i < base.len() {
        fields(base[i])
    } else {
        nothing()
    }
}

/// The tables after a save: one for each project, by position, so that an
/// untouched project keeps its comments and its keys. New ones stand right behind
/// the others and what belongs to them.
pub open spec fn tables_synced(base: Seq<Table>, ts: Seq<Table>, ps: Seq<ProjectView>) -> bool {
    &&& ts.len() == ps.len()
    &&& forall|i: int|
        0 <= i < ts.len() ==> fields(#[trigger] ts[i]) == with_project(base_fields(base, i), ps[i])
    &&& forall|i: int|
        0 <= i < ts.len() && i < base.len() ==> touched(
            base[i],
            #[trigger] ts[i],
            project_keys(),
        )
    &&& forall|i: int|
        base.len() <= i < ts.len() ==> comes_right_behind(base, position_of(#[trigger] ts[i]))
}

/// What the root holds once the list of projects is written into it.
pub open spec fn projects_synced(
    before: Map<Seq<char>, FieldView>,
    after: Map<Seq<char>, FieldView>,
    ps: Seq<ProjectView>,
) -> bool {
    if ps.len() == 0 {
        after == (if before.contains_key("projects"@) && before["projects"@] is Tables {
            before.remove("projects"@)
        } else {
            before
        })
    } else {
        &&& after == with_tables(before, "projects"@, tables_at(after, "projects"@))
        &&& tables_synced(tables_at(before, "projects"@), tables_at(after, "projects"@), ps)
    }
}

/// The list of projects is as a save would leave it.
pub open spec fn projects_settled(m: Map<Seq<char>, FieldView>, ps: Seq<ProjectView>) -> bool {
    if ps.len() == 0 {
        !(m.contains_key("projects"@) && m["projects"@] is Tables)
    } else {
        &&& m.contains_key("projects"@)
        &&& m["projects"@] is Tables
        &&& tables_at(m, "projects"@).len() == ps.len()
        &&& forall|i: int|
            0 <= i < ps.len() ==> project_settled(
                fields(#[trigger] tables_at(m, "projects"@)[i]),
                ps[i],
            )
    }
}

/// No header of these tables, or below them, stands behind this position.
spec fn covers(t: Table, last: Option<isize>) -> bool {
    forall|p: isize| #[trigger] stands_below(t, p) ==> (last matches Some(q) && p <= q)
}

/// The same of every table under a key.
spec fn covers_under(table: Table, key: Seq<char>, last: Option<isize>) -> bool {
    forall|i: int|
        match #[trigger] table_under(fields(table), key, i) {
            Some(t) => covers(t, last),
            None => true,
        }
}

/// A header of one of the tables under the key, or below it, stands there.
spec fn has_under(table: Table, key: Seq<char>, i: int, position: isize) -> bool {
    match table_under(fields(table), key, i) {
        Some(t) => depth_of(t) < depth_of(table) && stands_below(t, position),
        None => false,
    }
}

proof fn lemma_covered(table: Table, keys: Seq<String>, last: Option<isize>)
    requires
        position_of(table) matches Some(p) ==> (last matches Some(q) && p <= q),
        forall|key: Seq<char>| #[trigger]
            fields(table).contains_key(key) ==> list_view(keys).contains(key),
        forall|j: int| 0 <= j < keys.len() ==> covers_under(table, (#[trigger] keys[j])@, last),
    ensures
        covers(table, last),
{
    assert forall|p: isize| #[trigger] stands_below(table, p) implies last matches Some(q) && p
        <= q by {
        if position_of(table) != Some(p) {
            let (key, i) = choose|key: Seq<char>, i: int|
                match #[trigger] table_under(fields(table), key, i) {
                    Some(t) => depth_of(t) < depth_of(table) && stands_below(t, p),
                    None => false,
                };
            let t = table_under(fields(table), key, i).unwrap();
            assert(fields(table).contains_key(key));
            let j = choose|j: int| 0 <= j < list_view(keys).len() && list_view(keys)[j] == key;
            assert(keys[j]@ == key);
            assert(covers_under(table, key, last));
            assert(covers(t, last));
            assert(stands_below(t, p));
        }
    }
}

/// The later of two positions, where there are any.
fn later(a: Option<isize>, b: Option<isize>) -> (r: Option<isize>)
    ensures
        r == a || r == b,
        a matches Some(p) ==> (r matches Some(q) && p <= q),
        b matches Some(p) ==> (r matches Some(q) && p <= q),
{
    match (a, b) {
        (Some(x), Some(y)) => if x < y {
            b
        } else {
            a
        },
        (None, _) => b,
        (_, None) => a,
    }
}

/// The last position of a header at or below the tables under a key.
fn last_position_under(table: &Table, key: &str) -> (r: Option<isize>)
    ensures
        covers_under(*table, key@, r),
        r matches Some(q) ==> exists|i: int| #[trigger] has_under(*table, key@, i, q),
    decreases depth_of(*table), 0int,
{
    if let Some(t) = table_below(table, key) {
        let last: Option<isize> = last_position(t);
        proof {
            assert(table_under(fields(*table), key@, 0) == Some(*t));
            if let Some(q) = last {
                assert(has_under(*table, key@, 0, q));
            }
        }
        return last;
    }
    let n: usize = match table_count(table, key) {
        Some(n) => n,
        None => 0,
    };
    let mut last: Option<isize> = None;
    let mut i: usize = 0;
    while i < n
        invariant
            i <= n,
            n <= tables_at(fields(*table), key@).len(),
            forall|j: int|
                0 <= j < i ==> covers(#[trigger] tables_at(fields(*table), key@)[j], last),
            last matches Some(q) ==> exists|j: int| #[trigger] has_under(*table, key@, j, q),
        decreases n - i,
    {
        if let Some(t) = table_at(table, key, i) {
            let ghost before = last;
            let other: Option<isize> = last_position(t);
            last = later(last, other);
            proof {
                assert(table_under(fields(*table), key@, i as int) == Some(*t));
                if let Some(q) = other {
                    assert(has_under(*table, key@, i as int, q));
                }
                assert forall|j: int| 0 <= j < i + 1 implies covers(
                    #[trigger] tables_at(fields(*table), key@)[j],
                    last,
                ) by {
                    if j < i {
                        assert(covers(tables_at(fields(*table), key@)[j], before));
                    } else {
                        assert(covers(*t, other));
                    }
                }
            }
        }
        i = i + 1;
    }
    proof {
        let m = fields(*table);
        assert forall|j: int|
            match #[trigger] table_under(m, key@, j) {
                Some(t) => covers(t, last),
                None => true,
            } by {
            if table_under(m, key@, j) is Some {
                assert(table_under(m, key@, j) == Some(tables_at(m, key@)[j]));
            }
        }
    }
    last
}

/// The last position of a header at or below the table.
fn last_position(table: &Table) -> (r: Option<isize>)
    ensures
        covers(*table, r),
        r matches Some(q) ==> stands_below(*table, q),
    decreases depth_of(*table), 1int,
{
    let keys = table_keys(table);
    let own: Option<isize> = table.position();
    let mut last: Option<isize> = own;
    let mut k: usize = 0;
    while k < keys.len()
        invariant
            k <= keys@.len(),
            own == position_of(*table),
            own matches Some(p) ==> (last matches Some(q) && p <= q),
            last matches Some(q) ==> stands_below(*table, q),
            forall|j: int| 0 <= j < k ==> covers_under(*table, (#[trigger] keys@[j])@, last),
        decreases keys@.len() - k,
    {
        let ghost before = last;
        let other: Option<isize> = last_position_under(table, &keys[k]);
        last = later(last, other);
        proof {
            if let Some(q) = other {
                let i = choose|i: int| #[trigger] has_under(*table, keys@[k as int]@, i, q);
                assert(table_under(fields(*table), keys@[k as int]@, i) is Some);
            }
            assert forall|j: int| 0 <= j < k + 1 implies covers_under(
                *table,
                (#[trigger] keys@[j])@,
                last,
            ) by {
                let earlier = if j < k {
                    before
                } else {
                    other
                };
                assert(covers_under(*table, keys@[j]@, earlier));
                lemma_covers_more(*table, keys@[j]@, earlier, last);
            }
        }
        k = k + 1;
    }
    proof {
        lemma_covered(*table, keys@, last);
    }
    last
}

proof fn lemma_covers_more(table: Table, key: Seq<char>, a: Option<isize>, b: Option<isize>)
    requires
        covers_under(table, key, a),
        a matches Some(p) ==> (b matches Some(q) && p <= q),
    ensures
        covers_under(table, key, b),
{
    assert forall|i: int|
        match #[trigger] table_under(fields(table), key, i) {
            Some(t) => covers(t, b),
            None => true,
        } by {
        if let Some(t) = table_under(fields(table), key, i) {
            assert(covers(t, a));
        }
    }
}

/// A table at that position comes no further behind these tables than their own
/// headers go.
pub open spec fn comes_right_behind(ts: Seq<Table>, position: Option<isize>) -> bool {
    position matches Some(q) ==> exists|i: int|
        0 <= i < ts.len() && stands_below(#[trigger] ts[i], q)
}

/// The position a new project's table gets: behind everything that belongs to
/// the projects before it.
fn next_position(root: &Table) -> (r: Option<isize>)
    ensures
        are_placed(tables_at(fields(*root), "projects"@)) ==> comes_behind(
            tables_at(fields(*root), "projects"@),
            r,
        ),
        comes_right_behind(tables_at(fields(*root), "projects"@), r),
{
    let ghost ts = tables_at(fields(*root), "projects"@);
    match table_at(root, "projects", 0) {
        None => None,
        Some(first) => match first.position() {
            None => None,
            Some(at) => {
                let r = last_position_under(root, "projects");
                proof {
                    assert forall|i: int, p: isize|
                        0 <= i < ts.len() && #[trigger] stands_below(ts[i], p) implies r matches Some(
                        q,
                    ) && p <= q by {
                        assert(table_under(fields(*root), "projects"@, i) == Some(ts[i]));
                        assert(covers(ts[i], r));
                    }
                    assert(stands_below(ts[0], at));
                    if let Some(q) = r {
                        let i = choose|i: int| #[trigger]
                            has_under(*root, "projects"@, i, q);
                        assert(ts[i] == table_under(fields(*root), "projects"@, i).unwrap());
                        assert(stands_below(ts[i], q));
                    }
                }
                r
            },
        },
    }
}

/// A table that comes behind the others leaves the next one where it stands.
proof fn lemma_placed_more(ts: Seq<Table>, new: Table, position: Option<isize>)
    requires
        comes_behind(ts, position),
        are_placed(ts),
        fields(new) == nothing(),
        position_of(new) == position,
    ensures
        comes_behind(ts.push(new), position),
        are_placed(ts.push(new)),
{
    let all = ts.push(new);
    assert forall|p: isize| #[trigger] stands_below(new, p) implies position == Some(p) by {
        assert forall|key: Seq<char>, i: int| #[trigger]
            table_under(fields(new), key, i) is None by {}
    }
    assert forall|i: int, p: isize|
        0 <= i < all.len() && #[trigger] stands_below(all[i], p) implies position matches Some(
        q,
    ) && p <= q by {
        if i < ts.len() {
            assert(stands_below(ts[i], p));
        } else {
            assert(stands_below(new, p));
        }
    }
    if ts.len() > 0 {
        assert(all[0] == ts[0]);
    }
}

proof fn lemma_placed_less(ts: Seq<Table>)
    requires
        ts.len() > 0,
        are_placed(ts),
    ensures
        are_placed(ts.drop_last()),
{
    let fewer = ts.drop_last();
    if fewer.len() > 0 {
        assert(fewer[0] == ts[0]);
    }
    if fewer.len() > 0 && position_of(ts[0]) is None {
        assert forall|i: int, p: isize| 0 <= i < fewer.len() implies !#[trigger] stands_below(
            fewer[i],
            p,
        ) by {
            assert(!stands_below(ts[i], p));
        }
    }
}

fn resize_tables(root: &mut Table, n: usize)
    ensures
        ({
            let base = tables_at(fields(*old(root)), "projects"@);
            let ts = tables_at(fields(*final(root)), "projects"@);
            &&& fields(*final(root)) == with_tables(fields(*old(root)), "projects"@, ts)
            &&& ts.len() == n
            &&& forall|i: int| 0 <= i < n && i < base.len() ==> #[trigger] ts[i] == base[i]
            &&& forall|i: int| base.len() <= i < n ==> fields(#[trigger] ts[i]) == nothing()
            &&& only_touches(*old(root), *final(root), "projects"@)
            &&& keys_stepped(keys_of(*old(root)), keys_of(*final(root)), "projects"@)
            &&& forall|i: int|
                base.len() <= i < n ==> comes_right_behind(base, position_of(#[trigger] ts[i]))
            &&& are_placed(base) ==> are_placed(ts)
            &&& is_kept(*old(root)) && are_placed(base) ==> is_kept(*final(root))
            &&& fields(*old(root)).contains_key("projects"@) && fields(
                *old(root),
            )["projects"@] is Tables && base.len() == n ==> *final(root) == *old(root)
        }),
{
    let ghost r0 = *root;
    let ghost m0 = fields(r0);
    let ghost base = tables_at(m0, "projects"@);
    let mut count: usize = match table_count(root, "projects") {
        Some(count) => {
            proof {
                assert(m0 =~= with_tables(m0, "projects"@, base));
            }
            count
        },
        None => {
            start_tables(root, "projects");
            proof {
                assert(tables_at(fields(*root), "projects"@) =~= Seq::<Table>::empty());
                assert(base =~= Seq::<Table>::empty());
            }
            0
        },
    };
    let ghost was_tables = m0.contains_key("projects"@) && m0["projects"@] is Tables;
    while count > n
        invariant
            base == tables_at(m0, "projects"@),
            m0 == fields(r0),
            count == tables_at(fields(*root), "projects"@).len(),
            count <= base.len(),
            count < n ==> count == base.len(),
            fields(*root) == with_tables(
                m0,
                "projects"@,
                tables_at(fields(*root), "projects"@),
            ),
            forall|i: int|
                0 <= i < count && i < base.len() ==> #[trigger] tables_at(
                    fields(*root),
                    "projects"@,
                )[i] == base[i],
            only_touches(r0, *root, "projects"@),
            keys_stepped(keys_of(r0), keys_of(*root), "projects"@),
            are_placed(base) ==> are_placed(tables_at(fields(*root), "projects"@)),
            is_kept(r0) ==> is_kept(*root),
            was_tables && base.len() == n ==> *root == r0,
            was_tables && base.len() == n ==> count == n,
        decreases count,
    {
        let ghost ts = tables_at(fields(*root), "projects"@);
        let ghost before = *root;
        drop_last_table(root, "projects");
        count = count - 1;
        proof {
            assert(fields(*root) =~= with_tables(m0, "projects"@, ts.drop_last()));
            lemma_only_touches(r0, before, *root, "projects"@);
            if are_placed(ts) {
                lemma_placed_less(ts);
            }
        }
    }
    let position = next_position(root);
    proof {
        if count < n {
            assert(tables_at(fields(*root), "projects"@) =~= base);
        }
    }
    while count < n
        invariant
            base == tables_at(m0, "projects"@),
            m0 == fields(r0),
            count <= n,
            count == tables_at(fields(*root), "projects"@).len(),
            fields(*root) == with_tables(
                m0,
                "projects"@,
                tables_at(fields(*root), "projects"@),
            ),
            count < n ==> base.len() <= count,
            forall|i: int|
                0 <= i < count && i < base.len() ==> #[trigger] tables_at(
                    fields(*root),
                    "projects"@,
                )[i] == base[i],
            forall|i: int|
                base.len() <= i < count ==> fields(
                    #[trigger] tables_at(fields(*root), "projects"@)[i],
                ) == nothing(),
            count < n ==> comes_right_behind(base, position),
            forall|i: int|
                base.len() <= i < count ==> comes_right_behind(
                    base,
                    position_of(#[trigger] tables_at(fields(*root), "projects"@)[i]),
                ),
            only_touches(r0, *root, "projects"@),
            keys_stepped(keys_of(r0), keys_of(*root), "projects"@),
            are_placed(base) && count < n ==> comes_behind(
                tables_at(fields(*root), "projects"@),
                position,
            ),
            are_placed(base) ==> are_placed(tables_at(fields(*root), "projects"@)),
            is_kept(r0) && are_placed(base) ==> is_kept(*root),
            was_tables && base.len() == n ==> *root == r0,
            was_tables && base.len() == n ==> count == n,
        decreases n - count,
    {
        let ghost ts = tables_at(fields(*root), "projects"@);
        let ghost before = *root;
        push_table(root, "projects", position);
        proof {
            let new = tables_at(fields(*root), "projects"@).last();
            assert(tables_at(fields(*root), "projects"@) =~= ts.push(new));
            assert(fields(*root) =~= with_tables(m0, "projects"@, ts.push(new)));
            lemma_only_touches(r0, before, *root, "projects"@);
            if are_placed(base) {
                lemma_placed_more(ts, new, position);
            }
        }
        count = count + 1;
    }
}

proof fn lemma_only_touches(a: Table, b: Table, c: Table, key: Seq<char>)
    requires
        only_touches(a, b, key),
        only_touches(b, c, key),
    ensures
        only_touches(a, c, key),
{
    assert forall|k: Seq<char>| k != key implies #[trigger] agree_on(fields(a), fields(c), k) by {
        assert(agree_on(fields(a), fields(b), k));
        assert(agree_on(fields(b), fields(c), k));
    }
}

/// A project puts no header below its table.
proof fn lemma_project_headers(a: Table, b: Table, p: ProjectView)
    requires
        fields(b) == with_project(fields(a), p),
    ensures
        headers_from(a, b),
{
}

/// A table that gets no header below its own has none at a position of its own.
proof fn lemma_headers_stay(a: Table, b: Table)
    requires
        headers_from(a, b),
        position_of(b) == position_of(a),
        depth_of(b) <= depth_of(a),
    ensures
        forall|p: isize| #[trigger] stands_below(b, p) ==> stands_below(a, p),
{
    assert forall|p: isize| #[trigger] stands_below(b, p) implies stands_below(a, p) by {
        if position_of(b) != Some(p) {
            let (key, i) = choose|key: Seq<char>, i: int|
                match #[trigger] table_under(fields(b), key, i) {
                    Some(t) => depth_of(t) < depth_of(b) && stands_below(t, p),
                    None => false,
                };
            assert(fields(b).contains_key(key));
            assert(table_under(fields(a), key, i) == table_under(fields(b), key, i));
        }
    }
}

proof fn lemma_placed_still(ts: Seq<Table>, i: int, now: Table)
    requires
        are_placed(ts),
        0 <= i < ts.len(),
        position_of(now) == position_of(ts[i]),
        forall|p: isize| #[trigger] stands_below(now, p) ==> stands_below(ts[i], p),
    ensures
        are_placed(ts.update(i, now)),
{
    let next = ts.update(i, now);
    if position_of(ts[0]) is None {
        assert forall|j: int, p: isize| 0 <= j < next.len() implies !#[trigger] stands_below(
            next[j],
            p,
        ) by {
            assert(!stands_below(ts[j], p));
        }
    }
}

/// Writes the list of projects, by position. Only the end of the list is added
/// to or cut.
pub fn sync_projects(root: &mut Table, projects: &Vec<Project>)
    ensures
        projects_synced(fields(*old(root)), fields(*final(root)), projects_view(projects@)),
        only_touches(*old(root), *final(root), "projects"@),
        keys_stepped(keys_of(*old(root)), keys_of(*final(root)), "projects"@),
        are_placed(tables_at(fields(*old(root)), "projects"@)) ==> are_placed(
            tables_at(fields(*final(root)), "projects"@),
        ),
        is_kept(*old(root)) && are_placed(tables_at(fields(*old(root)), "projects"@)) ==> is_kept(
            *final(root),
        ),
        projects_settled(fields(*old(root)), projects_view(projects@)) ==> *final(root) == *old(
            root,
        ),
{
    let ghost r0 = *root;
    let ghost m0 = fields(r0);
    let ghost ps = projects_view(projects@);
    if projects.len() == 0 {
        if let Some(_) = table_count(root, "projects") {
            remove_key(root, "projects");
        }
        return;
    }
    let ghost base = tables_at(m0, "projects"@);
    resize_tables(root, projects.len());
    let ghost sized = tables_at(fields(*root), "projects"@);
    let ghost settled = projects_settled(m0, ps);
    let mut i: usize = 0;
    while i < projects.len()
        invariant
            i <= projects@.len(),
            ps == projects_view(projects@),
            m0 == fields(r0),
            base == tables_at(m0, "projects"@),
            settled == projects_settled(m0, ps),
            ps.len() > 0,
            sized.len() == ps.len(),
            forall|k: int|
                0 <= k < sized.len() && k < base.len() ==> #[trigger] sized[k] == base[k],
            forall|k: int|
                base.len() <= k < sized.len() ==> fields(#[trigger] sized[k]) == nothing(),
            forall|k: int|
                base.len() <= k < sized.len() ==> comes_right_behind(
                    base,
                    position_of(#[trigger] sized[k]),
                ),
            forall|k: int|
                base.len() <= k < i ==> comes_right_behind(
                    base,
                    position_of(#[trigger] tables_at(fields(*root), "projects"@)[k]),
                ),
            tables_at(fields(*root), "projects"@).len() == ps.len(),
            fields(*root) == with_tables(
                m0,
                "projects"@,
                tables_at(fields(*root), "projects"@),
            ),
            forall|k: int|
                i <= k < ps.len() ==> #[trigger] tables_at(fields(*root), "projects"@)[k]
                    == sized[k],
            forall|k: int|
                0 <= k < i ==> fields(#[trigger] tables_at(fields(*root), "projects"@)[k])
                    == with_project(base_fields(base, k), ps[k]),
            forall|k: int|
                0 <= k < i && k < base.len() ==> touched(
                    base[k],
                    #[trigger] tables_at(fields(*root), "projects"@)[k],
                    project_keys(),
                ),
            only_touches(r0, *root, "projects"@),
            keys_stepped(keys_of(r0), keys_of(*root), "projects"@),
            settled ==> *root == r0,
            are_placed(base) ==> are_placed(tables_at(fields(*root), "projects"@)),
            is_kept(r0) && are_placed(base) ==> is_kept(*root),
        decreases projects@.len() - i,
    {
        let ghost before = *root;
        let ghost ts = tables_at(fields(*root), "projects"@);
        let table = table_at_mut(root, "projects", i);
        let ghost was = *table;
        sync_project(table, &projects[i]);
        let ghost now = *table;
        proof {
            assert(ps[i as int] == projects@[i as int]@);
            assert(was == sized[i as int]);
            lemma_project_headers(was, now, ps[i as int]);
            lemma_headers_stay(was, now);
        }
        i = i + 1;
        proof {
            assert(tables_at(fields(*root), "projects"@) =~= ts.update(i - 1, now));
            assert(fields(*root) =~= with_tables(m0, "projects"@, ts.update(i - 1, now)));
            if are_placed(base) {
                lemma_placed_still(ts, i - 1, now);
            }
            assert forall|k: Seq<char>| k != "projects"@ implies #[trigger] agree_on(
                fields(r0),
                fields(*root),
                k,
            ) by {
                assert(agree_on(fields(r0), fields(before), k));
            }
            if settled {
                assert(tables_at(m0, "projects"@)[i - 1] == was);
                assert(now == was);
            }
        }
    }
}

// ---------------------------------------------------------------------------
// The settings
// ---------------------------------------------------------------------------

/// What tells the keys of the root apart: their lengths and their first
/// characters.
pub proof fn lemma_root_keys()
    ensures
        "models_dir"@.len() == 10 && "models_dir"@[0] == 'm',
        "active_model"@.len() == 12 && "active_model"@[0] == 'a',
        "language"@.len() == 8 && "language"@[0] == 'l',
        "hotkey"@.len() == 6 && "hotkey"@[0] == 'h',
        "toggle_hotkey"@.len() == 13 && "toggle_hotkey"@[0] == 't',
        "ptt_enabled"@.len() == 11 && "ptt_enabled"@[0] == 'p',
        "toggle_enabled"@.len() == 14 && "toggle_enabled"@[0] == 't',
        "mic_substring"@.len() == 13 && "mic_substring"@[0] == 'm',
        "audio_cues"@.len() == 10 && "audio_cues"@[0] == 'a',
        "overlay"@.len() == 7 && "overlay"@[0] == 'o',
        "overlay_corner"@.len() == 14 && "overlay_corner"@[0] == 'o',
        "reveal_seconds"@.len() == 14 && "reveal_seconds"@[0] == 'r',
        "theme"@.len() == 5 && "theme"@[0] == 't',
        "close_quits"@.len() == 11 && "close_quits"@[0] == 'c',
        "hide_deleted"@.len() == 12 && "hide_deleted"@[0] == 'h',
        "onboarded"@.len() == 9 && "onboarded"@[0] == 'o',
        "active_project"@.len() == 14 && "active_project"@[0] == 'a',
        "projects"@.len() == 8 && "projects"@[0] == 'p',
{
    reveal_strlit("models_dir");
    reveal_strlit("active_model");
    reveal_strlit("language");
    reveal_strlit("hotkey");
    reveal_strlit("toggle_hotkey");
    reveal_strlit("ptt_enabled");
    reveal_strlit("toggle_enabled");
    reveal_strlit("mic_substring");
    reveal_strlit("audio_cues");
    reveal_strlit("overlay");
    reveal_strlit("overlay_corner");
    reveal_strlit("reveal_seconds");
    reveal_strlit("theme");
    reveal_strlit("close_quits");
    reveal_strlit("hide_deleted");
    reveal_strlit("onboarded");
    reveal_strlit("active_project");
    reveal_strlit("projects");
}

/// The keys of the first half of the settings.
pub open spec fn first_keys() -> Set<Seq<char>> {
    Set::empty().insert("models_dir"@).insert("active_model"@).insert("language"@).insert("hotkey"@)
        .insert("toggle_hotkey"@).insert("ptt_enabled"@).insert("toggle_enabled"@)
        .insert("mic_substring"@).insert("audio_cues"@)
}

/// The keys of the second half of the settings.
pub open spec fn second_keys() -> Set<Seq<char>> {
    Set::empty().insert("overlay"@).insert("overlay_corner"@).insert("reveal_seconds"@)
        .insert("theme"@).insert("close_quits"@).insert("hide_deleted"@).insert("onboarded"@)
        .insert("active_project"@)
}

/// Every key of the root that is ours.
pub open spec fn root_keys() -> Set<Seq<char>> {
    first_keys().union(second_keys()).insert("projects"@)
}

/// What the root holds once the first half of the settings is written into it.
pub open spec fn with_first(
    m: Map<Seq<char>, FieldView>,
    c: ConfigView,
    models_default: Seq<char>,
) -> Map<Seq<char>, FieldView> {
    let m = put_unless(
        m,
        "models_dir"@,
        FieldView::Text(c.models_dir),
        FieldView::Text(models_default),
    );
    let m = put_optional(m, "active_model"@, c.active_model);
    let m = put_unless(
        m,
        "language"@,
        FieldView::Text(c.language),
        FieldView::Text(DEFAULT_LANGUAGE@),
    );
    let m = put_unless(
        m,
        "hotkey"@,
        FieldView::Text(c.hotkey),
        FieldView::Text(DEFAULT_HOTKEY@),
    );
    let m = put_unless(
        m,
        "toggle_hotkey"@,
        FieldView::Text(c.toggle_hotkey),
        FieldView::Text(DEFAULT_TOGGLE_HOTKEY@),
    );
    let m = put_unless(
        m,
        "ptt_enabled"@,
        FieldView::Flag(c.ptt_enabled),
        FieldView::Flag(true),
    );
    let m = put_unless(
        m,
        "toggle_enabled"@,
        FieldView::Flag(c.toggle_enabled),
        FieldView::Flag(true),
    );
    let m = put_optional(m, "mic_substring"@, c.mic_substring);
    put_unless(
        m,
        "audio_cues"@,
        FieldView::Flag(c.audio_cues),
        FieldView::Flag(true),
    )
}

/// What the root holds once the second half of the settings is written into it.
pub open spec fn with_second(m: Map<Seq<char>, FieldView>, c: ConfigView) -> Map<
    Seq<char>,
    FieldView,
> {
    let m = put_unless(
        m,
        "overlay"@,
        FieldView::Flag(c.overlay),
        FieldView::Flag(true),
    );
    let m = put_unless(
        m,
        "overlay_corner"@,
        FieldView::Text(corner_word(c.overlay_corner)),
        FieldView::Text(corner_word(OverlayCorner::BottomLeft)),
    );
    let m = put_unless(
        m,
        "reveal_seconds"@,
        FieldView::Number(clamped_reveal(c.reveal_seconds) as i64),
        FieldView::Number(DEFAULT_REVEAL_SECONDS as i64),
    );
    let m = put_unless(
        m,
        "theme"@,
        FieldView::Text(theme_word(c.theme)),
        FieldView::Text(theme_word(Theme::Dark)),
    );
    let m = put_unless(
        m,
        "close_quits"@,
        FieldView::Flag(c.close_quits),
        FieldView::Flag(false),
    );
    let m = put_unless(
        m,
        "hide_deleted"@,
        FieldView::Flag(c.hide_deleted),
        FieldView::Flag(false),
    );
    let m = put_unless(
        m,
        "onboarded"@,
        FieldView::Text(onboarded_word(c.onboarded)),
        FieldView::Text(onboarded_word(ONBOARDED_WHEN_ABSENT)),
    );
    put_optional(m, "active_project"@, c.active_project)
}

/// The first half of the settings is as a save would leave it.
pub open spec fn first_settled(
    m: Map<Seq<char>, FieldView>,
    c: ConfigView,
    models_default: Seq<char>,
) -> bool {
    &&& put_unless(
        m,
        "models_dir"@,
        FieldView::Text(c.models_dir),
        FieldView::Text(models_default),
    ) == m
    &&& put_optional(m, "active_model"@, c.active_model) == m
    &&& put_unless(
        m,
        "language"@,
        FieldView::Text(c.language),
        FieldView::Text(DEFAULT_LANGUAGE@),
    ) == m
    &&& put_unless(
        m,
        "hotkey"@,
        FieldView::Text(c.hotkey),
        FieldView::Text(DEFAULT_HOTKEY@),
    ) == m
    &&& put_unless(
        m,
        "toggle_hotkey"@,
        FieldView::Text(c.toggle_hotkey),
        FieldView::Text(DEFAULT_TOGGLE_HOTKEY@),
    ) == m
    &&& put_unless(
        m,
        "ptt_enabled"@,
        FieldView::Flag(c.ptt_enabled),
        FieldView::Flag(true),
    ) == m
    &&& put_unless(
        m,
        "toggle_enabled"@,
        FieldView::Flag(c.toggle_enabled),
        FieldView::Flag(true),
    ) == m
    &&& put_optional(m, "mic_substring"@, c.mic_substring) == m
    &&& put_unless(
        m,
        "audio_cues"@,
        FieldView::Flag(c.audio_cues),
        FieldView::Flag(true),
    ) == m
}

/// The second half of the settings is as a save would leave it.
pub open spec fn second_settled(m: Map<Seq<char>, FieldView>, c: ConfigView) -> bool {
    &&& put_unless(
        m,
        "overlay"@,
        FieldView::Flag(c.overlay),
        FieldView::Flag(true),
    ) == m
    &&& put_unless(
        m,
        "overlay_corner"@,
        FieldView::Text(corner_word(c.overlay_corner)),
        FieldView::Text(corner_word(OverlayCorner::BottomLeft)),
    ) == m
    &&& put_unless(
        m,
        "reveal_seconds"@,
        FieldView::Number(clamped_reveal(c.reveal_seconds) as i64),
        FieldView::Number(DEFAULT_REVEAL_SECONDS as i64),
    ) == m
    &&& put_unless(
        m,
        "theme"@,
        FieldView::Text(theme_word(c.theme)),
        FieldView::Text(theme_word(Theme::Dark)),
    ) == m
    &&& put_unless(
        m,
        "close_quits"@,
        FieldView::Flag(c.close_quits),
        FieldView::Flag(false),
    ) == m
    &&& put_unless(
        m,
        "hide_deleted"@,
        FieldView::Flag(c.hide_deleted),
        FieldView::Flag(false),
    ) == m
    &&& put_unless(
        m,
        "onboarded"@,
        FieldView::Text(onboarded_word(c.onboarded)),
        FieldView::Text(onboarded_word(ONBOARDED_WHEN_ABSENT)),
    ) == m
    &&& put_optional(m, "active_project"@, c.active_project) == m
}

/// What the root holds once the settings are written into it.
pub open spec fn is_synced(
    before: Map<Seq<char>, FieldView>,
    after: Map<Seq<char>, FieldView>,
    c: ConfigView,
    models_default: Seq<char>,
) -> bool {
    projects_synced(with_second(with_first(before, c, models_default), c), after, c.projects)
}

/// The document is as a save would leave it.
pub open spec fn is_settled(
    m: Map<Seq<char>, FieldView>,
    c: ConfigView,
    models_default: Seq<char>,
) -> bool {
    first_settled(m, c, models_default) && second_settled(m, c) && projects_settled(m, c.projects)
}

proof fn lemma_touch_more(
    a: Table,
    b: Table,
    c: Table,
    some: Set<Seq<char>>,
    more: Set<Seq<char>>,
)
    requires
        touched(a, b, some),
        touched(b, c, more),
        some.disjoint(more),
    ensures
        touched(a, c, some.union(more)),
{
    let all = some.union(more);
    lemma_others_kept(keys_of(a), keys_of(b), keys_of(c), some, more);
    lemma_places_stay(keys_of(a), keys_of(b), keys_of(c), some, more);
    assert forall|k: Seq<char>| !all.contains(k) implies #[trigger] agree_on(
        fields(a),
        fields(c),
        k,
    ) && decors(c)[k] == decors(a)[k] && key_decors(c)[k] == key_decors(a)[k] by {
        assert(agree_on(fields(a), fields(b), k));
        assert(agree_on(fields(b), fields(c), k));
    }
    assert forall|k: Seq<char>| #[trigger] comment_stays(a, c, k) by {
        assert(comment_stays(a, b, k));
        assert(comment_stays(b, c, k));
        if some.contains(k) {
            assert(agree_on(fields(b), fields(c), k));
        } else {
            assert(agree_on(fields(a), fields(b), k));
        }
    }
}

proof fn lemma_projects_touched(a: Table, b: Table, ps: Seq<ProjectView>)
    requires
        projects_synced(fields(a), fields(b), ps),
        only_touches(a, b, "projects"@),
        keys_stepped(keys_of(a), keys_of(b), "projects"@),
        projects_settled(fields(a), ps) ==> b == a,
    ensures
        touched(a, b, Set::empty().insert("projects"@)),
{
    lemma_keys_stepped(keys_of(a), keys_of(b), "projects"@);
    lemma_place_stepped(keys_of(a), keys_of(b), "projects"@);
    assert forall|k: Seq<char>| #[trigger] comment_stays(a, b, k) by {
        if k != "projects"@ {
            assert(agree_on(fields(a), fields(b), k));
        }
    }
}

impl Config {
    fn sync_first(&mut self, models_default: &str)
        ensures
            final(self)@ == old(self)@,
            fields(root_of(final(self).doc@)) == with_first(
                fields(root_of(old(self).doc@)),
                old(self)@,
                models_default@,
            ),
            touched(root_of(old(self).doc@), root_of(final(self).doc@), first_keys()),
            is_kept(root_of(old(self).doc@)) ==> is_kept(root_of(final(self).doc@)),
            first_settled(fields(root_of(old(self).doc@)), old(self)@, models_default@)
                ==> *final(self) == *old(self),
    {
        proof {
            lemma_root_keys();
            lemma_nothing_touched(root_of(self.doc@));
        }
        let root = self.doc.toml_mut().as_table_mut();
        let ghost t0 = *root;
        let ghost keys = Set::<Seq<char>>::empty();
        set_string_unless_default(root, "models_dir", &self.models_dir, models_default);
        let ghost t1 = *root;
        proof {
            lemma_touch(t0, t0, t1, keys, "models_dir"@, fields(t1));
            keys = keys.insert("models_dir"@);
        }
        set_optional_string(root, "active_model", &self.active_model);
        let ghost t2 = *root;
        proof {
            lemma_touch(t0, t1, t2, keys, "active_model"@, fields(t2));
            keys = keys.insert("active_model"@);
        }
        set_string_unless_default(root, "language", &self.language, DEFAULT_LANGUAGE);
        let ghost t3 = *root;
        proof {
            lemma_touch(t0, t2, t3, keys, "language"@, fields(t3));
            keys = keys.insert("language"@);
        }
        set_string_unless_default(root, "hotkey", &self.hotkey, DEFAULT_HOTKEY);
        let ghost t4 = *root;
        proof {
            lemma_touch(t0, t3, t4, keys, "hotkey"@, fields(t4));
            keys = keys.insert("hotkey"@);
        }
        set_string_unless_default(
            root,
            "toggle_hotkey",
            &self.toggle_hotkey,
            DEFAULT_TOGGLE_HOTKEY,
        );
        let ghost t5 = *root;
        proof {
            lemma_touch(t0, t4, t5, keys, "toggle_hotkey"@, fields(t5));
            keys = keys.insert("toggle_hotkey"@);
        }
        set_bool_unless_default(root, "ptt_enabled", self.ptt_enabled, true);
        let ghost t6 = *root;
        proof {
            lemma_touch(t0, t5, t6, keys, "ptt_enabled"@, fields(t6));
            keys = keys.insert("ptt_enabled"@);
        }
        set_bool_unless_default(root, "toggle_enabled", self.toggle_enabled, true);
        let ghost t7 = *root;
        proof {
            lemma_touch(t0, t6, t7, keys, "toggle_enabled"@, fields(t7));
            keys = keys.insert("toggle_enabled"@);
        }
        set_optional_string(root, "mic_substring", &self.mic_substring);
        let ghost t8 = *root;
        proof {
            lemma_touch(t0, t7, t8, keys, "mic_substring"@, fields(t8));
            keys = keys.insert("mic_substring"@);
        }
        set_bool_unless_default(root, "audio_cues", self.audio_cues, true);
        let ghost t9 = *root;
        proof {
            lemma_touch(t0, t8, t9, keys, "audio_cues"@, fields(t9));
            keys = keys.insert("audio_cues"@);
        }
    }

    fn sync_second(&mut self)
        ensures
            final(self)@ == old(self)@,
            fields(root_of(final(self).doc@)) == with_second(
                fields(root_of(old(self).doc@)),
                old(self)@,
            ),
            touched(root_of(old(self).doc@), root_of(final(self).doc@), second_keys()),
            is_kept(root_of(old(self).doc@)) ==> is_kept(root_of(final(self).doc@)),
            second_settled(fields(root_of(old(self).doc@)), old(self)@) ==> *final(self) == *old(
                self,
            ),
    {
        proof {
            lemma_root_keys();
            lemma_nothing_touched(root_of(self.doc@));
        }
        let root = self.doc.toml_mut().as_table_mut();
        let ghost t0 = *root;
        let ghost keys = Set::<Seq<char>>::empty();
        set_bool_unless_default(root, "overlay", self.overlay, true);
        let ghost t1 = *root;
        proof {
            lemma_touch(t0, t0, t1, keys, "overlay"@, fields(t1));
            keys = keys.insert("overlay"@);
        }
        set_string_unless_default(
            root,
            "overlay_corner",
            self.overlay_corner.as_str(),
            OverlayCorner::BottomLeft.as_str(),
        );
        let ghost t2 = *root;
        proof {
            lemma_touch(t0, t1, t2, keys, "overlay_corner"@, fields(t2));
            keys = keys.insert("overlay_corner"@);
        }
        set_u32_unless_default(
            root,
            "reveal_seconds",
            clamp_reveal_seconds(self.reveal_seconds),
            DEFAULT_REVEAL_SECONDS,
        );
        let ghost t3 = *root;
        proof {
            lemma_touch(t0, t2, t3, keys, "reveal_seconds"@, fields(t3));
            keys = keys.insert("reveal_seconds"@);
        }
        set_string_unless_default(root, "theme", self.theme.as_str(), Theme::Dark.as_str());
        let ghost t4 = *root;
        proof {
            lemma_touch(t0, t3, t4, keys, "theme"@, fields(t4));
            keys = keys.insert("theme"@);
        }
        set_bool_unless_default(root, "close_quits", self.close_quits, false);
        let ghost t5 = *root;
        proof {
            lemma_touch(t0, t4, t5, keys, "close_quits"@, fields(t5));
            keys = keys.insert("close_quits"@);
        }
        set_bool_unless_default(root, "hide_deleted", self.hide_deleted, false);
        let ghost t6 = *root;
        proof {
            lemma_touch(t0, t5, t6, keys, "hide_deleted"@, fields(t6));
            keys = keys.insert("hide_deleted"@);
        }
        set_string_unless_default(
            root,
            "onboarded",
            self.onboarded.as_str(),
            ONBOARDED_WHEN_ABSENT.as_str(),
        );
        let ghost t7 = *root;
        proof {
            lemma_touch(t0, t6, t7, keys, "onboarded"@, fields(t7));
            keys = keys.insert("onboarded"@);
        }
        set_optional_string(root, "active_project", &self.active_project);
        let ghost t8 = *root;
        proof {
            lemma_touch(t0, t7, t8, keys, "active_project"@, fields(t8));
            keys = keys.insert("active_project"@);
        }
    }

    /// Writes every setting into the document, touching only what differs.
    /// `models_default` is the models directory of this machine.
    pub fn sync_into_document(&mut self, models_default: &str)
        ensures
            final(self)@ == old(self)@,
            is_synced(
                fields(root_of(old(self).doc@)),
                fields(root_of(final(self).doc@)),
                old(self)@,
                models_default@,
            ),
            touched(root_of(old(self).doc@), root_of(final(self).doc@), root_keys()),
            is_sound(old(self).doc@) ==> is_sound(final(self).doc@),
            editable(fields(root_of(old(self).doc@))) && savable(old(self)@) ==> config_problem(
                fields(root_of(final(self).doc@)),
            ) is None && config_in(fields(root_of(final(self).doc@)), models_default@) == as_saved(
                old(self)@,
            ),
            is_settled(fields(root_of(old(self).doc@)), old(self)@, models_default@)
                ==> *final(self) == *old(self),
    {
        let ghost t0 = root_of(self.doc@);
        let ghost c = self@;
        self.sync_first(models_default);
        let ghost t1 = root_of(self.doc@);
        self.sync_second();
        let ghost t2 = root_of(self.doc@);
        let root = self.doc.toml_mut().as_table_mut();
        sync_projects(root, &self.projects);
        let ghost t3 = *root;
        proof {
            lemma_root_keys();
            assert(first_keys().disjoint(second_keys()));
            lemma_touch_more(t0, t1, t2, first_keys(), second_keys());
            lemma_projects_touched(t2, t3, c.projects);
            let both = first_keys().union(second_keys());
            assert(agree_on(fields(t0), fields(t2), "projects"@));
            let last = Set::empty().insert("projects"@);
            assert(both.disjoint(last));
            lemma_touch_more(t0, t2, t3, both, last);
            assert(both.union(last) =~= root_keys());
            if editable(fields(t0)) {
                a_saved_document_stays_editable(fields(t0), fields(t3), c, models_default@);
                if savable(c) {
                    a_saved_configuration_loads_as_it_was(
                        fields(t0),
                        fields(t3),
                        c,
                        models_default@,
                    );
                }
            }
        }
    }
}

// ---------------------------------------------------------------------------
// The file
// ---------------------------------------------------------------------------

/// Loading the text gives these settings.
pub open spec fn loads_as(text: Seq<char>, c: ConfigView, models_default: Seq<char>) -> bool {
    match toml_parsed(text) {
        Ok(doc) => config_problem(fields(root_of(doc))) is None && config_in(
            fields(root_of(doc)),
            models_default,
        ) == c,
        Err(_) => false,
    }
}

/// The document came out of a file, and what stands under our keys in it is ours
/// to write over.
pub open spec fn is_sound(doc: DocumentMut) -> bool {
    &&& is_kept(root_of(doc))
    &&& are_placed(tables_at(fields(root_of(doc)), "projects"@))
    &&& editable(fields(root_of(doc)))
}

/// What a save comes to: the settings stay, the document holds them, and `text`
/// is the document, reads back as it, and loads as the settings.
pub open spec fn is_saved(
    before: Config,
    after: Config,
    text: Seq<char>,
    models_default: Seq<char>,
) -> bool {
    let (old_root, new_root) = (root_of(before.doc@), root_of(after.doc@));
    &&& after@ == before@
    &&& is_synced(fields(old_root), fields(new_root), before@, models_default)
    &&& touched(old_root, new_root, root_keys())
    &&& is_settled(fields(old_root), before@, models_default) ==> after == before
    &&& text == toml_text(after.doc@)
    &&& is_sound(before.doc@) ==> is_sound(after.doc@) && (toml_parsed(text) matches Ok(doc)
        && reads_back(new_root, root_of(doc)) && (position_of(new_root) is None
        ==> comments_agree(new_root, root_of(doc))))
    &&& is_sound(before.doc@) && savable(before@) ==> loads_as(
        text,
        as_saved(before@),
        models_default,
    )
}

/// What came of reading the file.
#[derive(Debug)]
pub enum FileRead {
    /// The file's text.
    Text(String),
    /// There is no such file.
    Missing,
    /// The file could not be read.
    Failed(String),
}

/// A loaded configuration, and the text to write where there was no file yet.
#[derive(Debug)]
pub struct Loaded {
    pub config: Config,
    pub write: Option<String>,
}

/// The configuration of a fresh install, and the first text it is saved as.
pub open spec fn is_first_save(loaded: Loaded, models_default: Seq<char>) -> bool {
    loaded.write is Some && exists|fresh: Config|
        is_fresh(fresh, models_default) && #[trigger] is_saved(
            fresh,
            loaded.config,
            loaded.write.unwrap()@,
            models_default,
        )
}

impl Config {
    /// The text a save writes. `models_default` is the models directory of this
    /// machine.
    pub fn to_toml_string_with(&mut self, models_default: &str) -> (r: String)
        ensures
            is_saved(*old(self), *final(self), r@, models_default@),
    {
        let ghost before = *self;
        self.sync_into_document(models_default);
        let text = print_document(self.doc.toml());
        proof {
            if is_sound(before.doc@) && savable(before@) {
                match toml_parsed(text@) {
                    Ok(again) => {
                        a_save_is_read_back(
                            root_of(before.doc@),
                            root_of(self.doc@),
                            root_of(again),
                            before@,
                            models_default@,
                        );
                    },
                    Err(_) => {},
                }
            }
        }
        text
    }

    /// The text a save writes.
    pub fn to_toml_string(&mut self) -> (r: String)
        ensures
            exists|data: Option<PathView>|
                is_saved(*old(self), *final(self), r@, (#[trigger] models_dir_in(data)).text),
    {
        let models_default = path_to_string(&default_models_dir());
        self.to_toml_string_with(&models_default)
    }

    /// Makes a configuration of what came of reading its file. Where there is no
    /// file, the configuration is that of a fresh install and has to be written;
    /// a file that is there is never replaced.
    pub fn load_from(read: FileRead, path: &str, models_default: &str) -> (r: Result<
        Loaded,
        ConfigError,
    >)
        ensures
            match read {
                FileRead::Text(text) => match r {
                    Ok(loaded) => loaded.write is None && is_loaded(
                        Ok(loaded.config),
                        text@,
                        path@,
                        models_default@,
                    ),
                    Err(e) => is_loaded(Err(e), text@, path@, models_default@),
                },
                FileRead::Missing => match r {
                    Ok(loaded) => is_first_save(loaded, models_default@),
                    Err(_) => false,
                },
                FileRead::Failed(reason) => r matches Err(e) && e@ == (ConfigErrorView::Read {
                    path: path@,
                    reason: reason@,
                }),
            },
    {
        match read {
            FileRead::Text(text) => match Config::from_toml_with(&text, path, models_default) {
                Ok(config) => Ok(Loaded { config, write: None }),
                Err(e) => Err(e),
            },
            FileRead::Missing => {
                let mut config = Config::default_in(models_default);
                let ghost fresh = config;
                let text = config.to_toml_string_with(models_default);
                let loaded = Loaded { config, write: Some(text) };
                proof {
                    assert(is_saved(
                        fresh,
                        loaded.config,
                        loaded.write.unwrap()@,
                        models_default@,
                    ));
                }
                Ok(loaded)
            },
            FileRead::Failed(reason) => Err(ConfigError::Read { path: owned(path), reason }),
        }
    }
}

} // verus!
