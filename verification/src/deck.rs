//! Deck-side rules that need no audio: the beat-jump table, and the tag
//! editor's paths (where the file is, and where saving would rename it).

use crate::config::Action;
use crate::paths::{
    extension, extension_spec, file_stem, file_stem_spec, join, join_spec, parent, parent_spec,
};
use crate::text::{chars_of, push_chars, string_of, trim, trimmed};
use vstd::prelude::*;

verus! {

/// The signed beat count of a jump action: the forward and backward keys of
/// each size, largest first (64, 32, 16, 8, 4 and 1 bars of four beats, and
/// a single beat).
pub open spec fn jump_beats_spec(action: Action) -> Option<i32> {
    match action {
        Action::JumpForward64b => Some(256),
        Action::JumpBackward64b => Some(-256i32),
        Action::JumpForward32b => Some(128),
        Action::JumpBackward32b => Some(-128i32),
        Action::JumpForward16b => Some(64),
        Action::JumpBackward16b => Some(-64i32),
        Action::JumpForward8b => Some(32),
        Action::JumpBackward8b => Some(-32i32),
        Action::JumpForward4b => Some(16),
        Action::JumpBackward4b => Some(-16i32),
        Action::JumpForward1b => Some(4),
        Action::JumpBackward1b => Some(-4i32),
        Action::JumpForward1bt => Some(1),
        Action::JumpBackward1bt => Some(-1i32),
        _ => None,
    }
}

/// Signed beat count for a jump action, or none if `action` is not a jump.
pub fn jump_beats(action: Action) -> (r: Option<i32>)
    ensures
        r == jump_beats_spec(action),
{
    let sizes: [(Action, Action, i32); 7] = [
        (Action::JumpForward64b, Action::JumpBackward64b, 256),
        (Action::JumpForward32b, Action::JumpBackward32b, 128),
        (Action::JumpForward16b, Action::JumpBackward16b, 64),
        (Action::JumpForward8b, Action::JumpBackward8b, 32),
        (Action::JumpForward4b, Action::JumpBackward4b, 16),
        (Action::JumpForward1b, Action::JumpBackward1b, 4),
        (Action::JumpForward1bt, Action::JumpBackward1bt, 1),
    ];
    let mut i: usize = 0;
    while i < 7
        invariant
            i <= 7,
            sizes@ == seq![
                (Action::JumpForward64b, Action::JumpBackward64b, 256i32),
                (Action::JumpForward32b, Action::JumpBackward32b, 128i32),
                (Action::JumpForward16b, Action::JumpBackward16b, 64i32),
                (Action::JumpForward8b, Action::JumpBackward8b, 32i32),
                (Action::JumpForward4b, Action::JumpBackward4b, 16i32),
                (Action::JumpForward1b, Action::JumpBackward1b, 4i32),
                (Action::JumpForward1bt, Action::JumpBackward1bt, 1i32),
            ],
            forall|j: int| 0 <= j < i ==> action != (#[trigger] sizes@[j]).0 && action != sizes@[j].1,
        decreases 7 - i,
    {
        let (fwd, back, beats) = sizes[i];
        if action == fwd {
            return Some(beats);
        }
        if action == back {
            return Some(-beats);
        }
        i = i + 1;
    }
    None
}

pub struct TagEditorState {
    /// Each field's text and the cursor within it.
    pub fields: Vec<(String, usize)>,
    pub active_field: usize,
    /// Whether saving also renames the file to match the tags.
    pub rename_enabled: bool,
    /// The directory of the file being edited.
    pub dir: String,
    pub current_stem: String,
    pub extension: String,
    pub collision_error: Option<String>,
}

/// `dir` joined with `stem`, with `.ext` after it when there is one.
pub open spec fn named_in(dir: Seq<char>, stem: Seq<char>, ext: Seq<char>) -> Seq<char> {
    if ext.len() == 0 {
        join_spec(dir, stem)
    } else {
        join_spec(dir, stem + seq!['.'] + ext)
    }
}

fn path_named(dir: &str, stem: &[char], ext: &str) -> (r: String)
    ensures
        r@ == named_in(dir@, stem@, ext@),
{
    let mut name: Vec<char> = Vec::new();
    push_chars(&mut name, stem);
    let ev = chars_of(ext);
    if ev.len() > 0 {
        name.push('.');
        push_chars(&mut name, &ev);
        assert(name@ =~= stem@ + seq!['.'] + ext@);
    } else {
        assert(name@ =~= stem@);
    }
    let n = string_of(&name);
    join(dir, n.as_str())
}

impl TagEditorState {
    /// The editor for the track at `path`, seeded from the tags read from it
    /// (none when they could not be read: blank fields saved over the real
    /// tags would lose them).
    pub fn for_track(path: &str, tags: Option<Vec<String>>) -> (r: Option<Self>)
        ensures
            match tags {
                None => r is None,
                Some(t) => r matches Some(st) && {
                    &&& st.fields@.len() == t@.len()
                    &&& forall|i: int|
                        0 <= i < t@.len() ==> (#[trigger] st.fields@[i]).0 == t@[i] && st.fields@[i].1
                            == 0
                    &&& st.active_field == 0
                    &&& st.rename_enabled
                    &&& st.dir@ == match parent_spec(path@) {
                        Some(d) => d,
                        None => seq!['.'],
                    }
                    &&& st.current_stem@ == match file_stem_spec(path@) {
                        Some(s) => s,
                        None => Seq::empty(),
                    }
                    &&& st.extension@ == match extension_spec(path@) {
                        Some(e) => e,
                        None => Seq::empty(),
                    }
                    &&& st.collision_error is None
                },
            },
    {
        let t = match tags {
            Some(t) => t,
            None => return None,
        };
        let ghost tv = t@;
        let mut fields: Vec<(String, usize)> = Vec::new();
        let mut rest = t;
        let mut rev: Vec<String> = Vec::new();
        while rest.len() > 0
            invariant
                rest@.len() <= tv.len(),
                rest@ == tv.take(rest@.len() as int),
                rev@.len() == tv.len() - rest@.len(),
                forall|i: int| 0 <= i < rev@.len() ==> #[trigger] rev@[i] == tv[tv.len() - 1 - i],
            decreases rest@.len(),
        {
            let ghost m = rest@.len();
            let v = rest.pop().unwrap();
            assert(rest@ =~= tv.take(m - 1));
            rev.push(v);
        }
        while rev.len() > 0
            invariant
                rev@.len() + fields@.len() == tv.len(),
                forall|i: int| 0 <= i < rev@.len() ==> #[trigger] rev@[i] == tv[tv.len() - 1 - i],
                forall|i: int|
                    0 <= i < fields@.len() ==> (#[trigger] fields@[i]).0 == tv[i] && fields@[i].1 == 0,
            decreases rev@.len(),
        {
            let v = rev.pop().unwrap();
            fields.push((v, 0));
        }
        let dir = match parent(path) {
            Some(d) => d,
            None => string_of(&['.']),
        };
        let current_stem = match file_stem(path) {
            Some(s) => s,
            None => String::new(),
        };
        let ext = match extension(path) {
            Some(e) => e,
            None => String::new(),
        };
        Some(
            TagEditorState {
                fields,
                active_field: 0,
                rename_enabled: true,
                dir,
                current_stem,
                extension: ext,
                collision_error: None,
            },
        )
    }

    /// The file's current full path, before any pending rename.
    pub fn current_path(&self) -> (r: String)
        ensures
            r@ == named_in(self.dir@, self.current_stem@, self.extension@),
    {
        let stem = chars_of(self.current_stem.as_str());
        path_named(self.dir.as_str(), &stem, self.extension.as_str())
    }

    /// The name the fields would give the file: "Title - Artist", each
    /// trimmed.
    pub open spec fn preview_spec(&self) -> Seq<char> {
        trim(self.fields@[1].0@) + seq![' ', '-', ' '] + trim(self.fields@[0].0@)
    }

    pub fn preview(&self) -> (r: String)
        requires
            self.fields@.len() >= 2,
        ensures
            r@ == self.preview_spec(),
    {
        let a = trimmed(self.fields[0].0.as_str());
        let t = trimmed(self.fields[1].0.as_str());
        let mut out: Vec<char> = Vec::new();
        push_chars(&mut out, &t);
        push_chars(&mut out, &[' ', '-', ' ']);
        push_chars(&mut out, &a);
        assert(out@ =~= self.preview_spec());
        string_of(&out)
    }

    /// The full path the current field values would rename the file to.
    pub fn target_path(&self) -> (r: String)
        requires
            self.fields@.len() >= 2,
        ensures
            r@ == named_in(self.dir@, self.preview_spec(), self.extension@),
    {
        let p = self.preview();
        let stem = chars_of(p.as_str());
        path_named(self.dir.as_str(), &stem, self.extension.as_str())
    }

    /// The field being edited: its text and its cursor.
    pub fn active_field_mut(&mut self) -> (r: &mut (String, usize))
        requires
            old(self).active_field < old(self).fields@.len(),
        ensures
            *r == old(self).fields@[old(self).active_field as int],
            final(self).fields@ == old(self).fields@.update(old(self).active_field as int, *final(r)),
            final(self).active_field == old(self).active_field,
            final(self).dir == old(self).dir,
            final(self).current_stem == old(self).current_stem,
            final(self).extension == old(self).extension,
            final(self).rename_enabled == old(self).rename_enabled,
            final(self).collision_error == old(self).collision_error,
    {
        let i = self.active_field;
        &mut self.fields[i]
    }
}

/// A key as the tag editor reads it.
#[derive(Debug, Clone, Copy, PartialEq, Eq, Structural)]
pub enum EditorKey {
    Tab,
    BackTab,
    Up,
    Down,
    Left,
    Right,
    Home,
    End,
    Backspace,
    Delete,
    Char(char),
    Other,
}

/// What saving the editor's fields will do: write `fields` to the file at
/// `old`, and rename it to `target` when `needs_rename`.
pub struct SavePlan {
    pub old: String,
    pub target: String,
    pub needs_rename: bool,
    pub fields: Vec<(String, usize)>,
    /// "Title – Artist", the track's display name.
    pub name: String,
    /// The file stem the tags give.
    pub stem: String,
}

/// The number of characters of a field.
pub open spec fn text_len(f: (String, usize)) -> int {
    f.0@.len() as int
}

impl TagEditorState {
    /// The editor holds its seven fields, the focus on one of them, and each
    /// cursor within its field.
    pub open spec fn editable(&self) -> bool {
        &&& self.fields@.len() == 7
        &&& self.active_field < 7
        &&& forall|i: int| 0 <= i < 7 ==> #[trigger] self.fields@[i].1 <= text_len(self.fields@[i])
    }

    /// The active field after `key`: `(text, cursor)`.
    pub open spec fn edited(&self, key: EditorKey) -> (Seq<char>, int) {
        let (t, c) = (self.fields@[self.active_field as int].0@, self.fields@[self.active_field as int].1 as int);
        match key {
            EditorKey::Left => (t, if c > 0 { c - 1 } else { c }),
            EditorKey::Right => (t, if c < t.len() { c + 1 } else { c }),
            EditorKey::Home => (t, 0),
            EditorKey::End => (t, t.len() as int),
            EditorKey::Backspace => if c > 0 {
                (t.remove(c - 1), c - 1)
            } else {
                (t, c)
            },
            EditorKey::Delete => if c < t.len() {
                (t.remove(c), c)
            } else {
                (t, c)
            },
            EditorKey::Char(ch) => (t.insert(c, ch), c + 1),
            _ => (t, c),
        }
    }

    /// The focus after `key`: Tab and Down move to the next field, BackTab
    /// and Up to the previous one, wrapping around.
    pub open spec fn focused_after(&self, key: EditorKey) -> usize {
        match key {
            EditorKey::Tab | EditorKey::Down => ((self.active_field + 1) % 7) as usize,
            EditorKey::BackTab | EditorKey::Up => ((self.active_field + 6) % 7) as usize,
            _ => self.active_field,
        }
    }

    /// Edit the active field, or move the focus, by one key.
    pub fn edit_key(&mut self, key: EditorKey)
        requires
            old(self).editable(),
        ensures
            final(self).editable(),
            final(self).active_field == old(self).focused_after(key),
            final(self).fields@.len() == 7,
            final(self).fields@[old(self).active_field as int].0@ == old(self).edited(key).0,
            final(self).fields@[old(self).active_field as int].1 == old(self).edited(key).1,
            forall|i: int|
                0 <= i < 7 && i != old(self).active_field ==> #[trigger] final(self).fields@[i]
                    == old(self).fields@[i],
            final(self).dir == old(self).dir,
            final(self).current_stem == old(self).current_stem,
            final(self).extension == old(self).extension,
            final(self).rename_enabled == old(self).rename_enabled,
            final(self).collision_error == old(self).collision_error,
    {
        let ghost before = *self;
        match key {
            EditorKey::Tab | EditorKey::Down => {
                self.active_field = (self.active_field + 1) % 7;
                return;
            },
            EditorKey::BackTab | EditorKey::Up => {
                self.active_field = (self.active_field + 6) % 7;
                return;
            },
            _ => {},
        }
        let i = self.active_field;
        let v = chars_of(self.fields[i].0.as_str());
        let c = self.fields[i].1;
        let (nv, nc): (Vec<char>, usize) = match key {
            EditorKey::Left => (v, if c > 0 { c - 1 } else { c }),
            EditorKey::Right => {
                let n = v.len();
                (v, if c < n { c + 1 } else { c })
            },
            EditorKey::Home => (v, 0),
            EditorKey::End => {
                let n = v.len();
                (v, n)
            },
            EditorKey::Backspace => {
                if c > 0 {
                    let mut w = v;
                    w.remove(c - 1);
                    (w, c - 1)
                } else {
                    (v, c)
                }
            },
            EditorKey::Delete => {
                if c < v.len() {
                    let mut w = v;
                    w.remove(c);
                    (w, c)
                } else {
                    (v, c)
                }
            },
            EditorKey::Char(ch) => {
                let mut w = v;
                w.insert(c, ch);
                let n = w.len();
                assert(c < n);
                (w, c + 1)
            },
            _ => (v, c),
        };
        let text = string_of(&nv);
        self.fields.set(i, (text, nc));
        assert forall|j: int| 0 <= j < 7 implies #[trigger] self.fields@[j].1 <= text_len(self.fields@[j]) by {
            if j != i {
                assert(self.fields@[j] == before.fields@[j]);
            }
        }
    }

    /// The fields as saved: each trimmed, its cursor kept within it.
    pub open spec fn trimmed_field(f: (String, usize)) -> (Seq<char>, int) {
        let t = trim(f.0@);
        (t, if (f.1 as int) < t.len() { f.1 as int } else { t.len() as int })
    }

    /// Prepare to save: nothing when the artist or the title is blank (the
    /// editor is left as it was); otherwise trim every field (keeping its
    /// cursor within it) and say where the file is and where its tags would
    /// rename it.
    pub fn prepare_save(&mut self) -> (r: Option<SavePlan>)
        requires
            old(self).fields@.len() >= 2,
        ensures
            trim(old(self).fields@[0].0@).len() == 0 || trim(old(self).fields@[1].0@).len() == 0 ==> {
                &&& r is None
                &&& *final(self) == *old(self)
            },
            trim(old(self).fields@[0].0@).len() > 0 && trim(old(self).fields@[1].0@).len() > 0 ==> {
                &&& final(self).fields@.len() == old(self).fields@.len()
                &&& forall|i: int|
                    0 <= i < old(self).fields@.len() ==> (#[trigger] final(self).fields@[i].0@,
                        final(self).fields@[i].1 as int) == TagEditorState::trimmed_field(old(self).fields@[i])
                &&& final(self).active_field == old(self).active_field
                &&& final(self).dir == old(self).dir
                &&& final(self).current_stem == old(self).current_stem
                &&& final(self).extension == old(self).extension
                &&& final(self).rename_enabled == old(self).rename_enabled
                &&& final(self).collision_error == old(self).collision_error
                &&& r matches Some(plan) && {
                    &&& plan.stem@ == final(self).preview_spec()
                    &&& plan.needs_rename == (plan.stem@ != final(self).current_stem@)
                    &&& plan.old@ == named_in(final(self).dir@, final(self).current_stem@, final(self).extension@)
                    &&& plan.target@ == named_in(final(self).dir@, final(self).preview_spec(), final(self).extension@)
                    &&& plan.fields@ == final(self).fields@
                    &&& plan.name@ == final(self).fields@[1].0@ + seq![' ', '\u{2013}', ' '] + final(self).fields@[0].0@
                }
            },
    {
        let a = trimmed(self.fields[0].0.as_str());
        let t = trimmed(self.fields[1].0.as_str());
        if a.len() == 0 || t.len() == 0 {
            return None;
        }
        let ghost before = *self;
        let n = self.fields.len();
        let mut k: usize = 0;
        while k < n
            invariant
                n == self.fields@.len(),
                n == before.fields@.len(),
                k <= n,
                self.active_field == before.active_field,
                self.dir == before.dir,
                self.current_stem == before.current_stem,
                self.extension == before.extension,
                self.rename_enabled == before.rename_enabled,
                self.collision_error == before.collision_error,
                forall|i: int|
                    0 <= i < k ==> (#[trigger] self.fields@[i].0@, self.fields@[i].1 as int)
                        == TagEditorState::trimmed_field(before.fields@[i]),
                forall|i: int| k <= i < n ==> #[trigger] self.fields@[i] == before.fields@[i],
            decreases n - k,
        {
            let tv = trimmed(self.fields[k].0.as_str());
            let len = tv.len();
            let c = if self.fields[k].1 < len {
                self.fields[k].1
            } else {
                len
            };
            self.fields.set(k, (string_of(&tv), c));
            k = k + 1;
        }
        let stem = self.preview();
        let sv = chars_of(stem.as_str());
        let cv = chars_of(self.current_stem.as_str());
        let needs_rename = !crate::text::chars_eq(&sv, &cv);
        let old = self.current_path();
        let target = self.target_path();
        let mut fields: Vec<(String, usize)> = Vec::new();
        let mut j: usize = 0;
        while j < n
            invariant
                n == self.fields@.len(),
                j <= n,
                fields@ == self.fields@.take(j as int),
            decreases n - j,
        {
            let f = (self.fields[j].0.clone(), self.fields[j].1);
            fields.push(f);
            assert(fields@ =~= self.fields@.take(j + 1));
            j = j + 1;
        }
        assert(self.fields@.take(n as int) =~= self.fields@);
        let title = chars_of(self.fields[1].0.as_str());
        let artist = chars_of(self.fields[0].0.as_str());
        let mut nm: Vec<char> = Vec::new();
        push_chars(&mut nm, &title);
        push_chars(&mut nm, &[' ', '\u{2013}', ' ']);
        push_chars(&mut nm, &artist);
        assert(nm@ =~= self.fields@[1].0@ + seq![' ', '\u{2013}', ' '] + self.fields@[0].0@);
        let name = string_of(&nm);
        Some(SavePlan { old, target, needs_rename, fields, name, stem })
    }

    /// Settle a prepared save against whether the rename target already
    /// exists: a rename onto an existing file is refused with a note shown
    /// in the editor; otherwise the note clears and the save goes ahead.
    pub fn settle_save(&mut self, plan: SavePlan, target_exists: bool) -> (r: Option<SavePlan>)
        ensures
            plan.needs_rename && target_exists ==> {
                &&& r is None
                &&& final(self).collision_error matches Some(e) && e@ == seq![
                    'a', 'l', 'r', 'e', 'a', 'd', 'y', ' ', 'e', 'x', 'i', 's', 't', 's', ':', ' '
                ] + match crate::paths::file_name_spec(plan.target@) {
                    Some(n) => n,
                    None => Seq::empty(),
                }
            },
            !(plan.needs_rename && target_exists) ==> {
                &&& r == Some(plan)
                &&& final(self).collision_error is None
            },
            final(self).fields == old(self).fields,
            final(self).active_field == old(self).active_field,
            final(self).dir == old(self).dir,
            final(self).current_stem == old(self).current_stem,
            final(self).extension == old(self).extension,
            final(self).rename_enabled == old(self).rename_enabled,
    {
        if plan.needs_rename && target_exists {
            let mut msg: Vec<char> = Vec::new();
            push_chars(&mut msg, &['a', 'l', 'r', 'e', 'a', 'd', 'y', ' ', 'e', 'x', 'i', 's', 't', 's', ':', ' ']);
            let fname = match crate::paths::file_name(plan.target.as_str()) {
                Some(n) => chars_of(n.as_str()),
                None => Vec::new(),
            };
            push_chars(&mut msg, &fname);
            assert(msg@ =~= seq![
                'a', 'l', 'r', 'e', 'a', 'd', 'y', ' ', 'e', 'x', 'i', 's', 't', 's', ':', ' '
            ] + fname@);
            self.collision_error = Some(string_of(&msg));
            None
        } else {
            self.collision_error = None;
            Some(plan)
        }
    }
}

} // verus!
