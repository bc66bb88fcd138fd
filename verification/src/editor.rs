//! The editor's state: the flag store, the search text, the "Add New Flag"
//! dialog and the status line, and what the editor's actions do to it.
use vstd::prelude::*;

use crate::flags::{cleaned, has_key, listing, with_flag, without_flag, FlagStore, FlagView};
use crate::json::{json_document, json_error_message, DocumentView};
use crate::text::{decimal_string, decimal_text, trim_text, trimmed};

verus! {

// ─── Status message ──────────────────────────────────────────────────────────

/// The status line: its text, how many frames it has left (0: it stays
/// until overwritten), and whether it reports an error.
pub struct StatusMsg {
    pub text: String,
    pub ttl: u32,
    pub is_error: bool,
}

/// What a status message holds.
pub struct StatusView {
    pub text: Seq<char>,
    pub ttl: nat,
    pub is_error: bool,
}

impl View for StatusMsg {
    type V = StatusView;

    open spec fn view(&self) -> StatusView {
        StatusView { text: self.text@, ttl: self.ttl as nat, is_error: self.is_error }
    }
}

/// A success message: shown for 180 frames.
pub open spec fn ok_status(text: Seq<char>) -> StatusView {
    StatusView { text, ttl: 180, is_error: false }
}

/// An error message: shown for 300 frames.
pub open spec fn err_status(text: Seq<char>) -> StatusView {
    StatusView { text, ttl: 300, is_error: true }
}

/// What one frame does to a status message: a counting message counts
/// down, and its text goes when the count reaches 0.
pub open spec fn ticked(s: StatusView) -> StatusView {
    if s.ttl > 0 {
        StatusView {
            text: if s.ttl == 1 { Seq::empty() } else { s.text },
            ttl: (s.ttl - 1) as nat,
            is_error: s.is_error,
        }
    } else {
        s
    }
}

impl StatusMsg {
    /// A success message.
    pub fn ok(text: String) -> (r: Self)
        ensures
            r@ == ok_status(text@),
    {
        StatusMsg { text, ttl: 180, is_error: false }
    }

    /// An error message.
    pub fn err(text: String) -> (r: Self)
        ensures
            r@ == err_status(text@),
    {
        StatusMsg { text, ttl: 300, is_error: true }
    }

    /// Advances the message by one frame.
    pub fn tick(&mut self)
        ensures
            final(self)@ == ticked(old(self)@),
    {
        if self.ttl > 0 {
            self.ttl = self.ttl - 1;
            if self.ttl == 0 {
                self.text = String::new();
            }
        }
    }
}

impl Default for StatusMsg {
    /// No message.
    fn default() -> (r: Self)
        ensures
            r@ == (StatusView { text: Seq::empty(), ttl: 0, is_error: false }),
    {
        StatusMsg { text: String::new(), ttl: 0, is_error: false }
    }
}

/// How the status line looks: nothing to report, an error, or a success.
#[derive(PartialEq, Eq, Structural, Clone, Copy, Debug)]
pub enum StatusTone {
    Idle,
    Error,
    Success,
}

/// The status line's tone and text: `Ready` when there is no message.
pub fn status_line(status: &StatusMsg) -> (r: (StatusTone, String))
    ensures
        status.text@.len() == 0 ==> r.0 == StatusTone::Idle && r.1@ == "Ready"@,
        status.text@.len() > 0 ==> r.0 == (if status.is_error { StatusTone::Error } else { StatusTone::Success })
            && r.1@ == status.text@,
{
    if status.text.unicode_len() == 0 {
        (StatusTone::Idle, "Ready".to_owned())
    } else if status.is_error {
        (StatusTone::Error, status.text.clone())
    } else {
        (StatusTone::Success, status.text.clone())
    }
}

// ─── The "Add New Flag" dialog ───────────────────────────────────────────────

/// The state of the "Add New Flag" dialog.
pub struct AddModal {
    pub open: bool,
    pub key: String,
    pub value: String,
    pub error: String,
    /// Focus the key field once, when the dialog first opens.
    pub just_opened: bool,
}

impl Default for AddModal {
    /// A closed dialog with empty fields.
    fn default() -> (r: Self)
        ensures
            !r.open,
            r.key@.len() == 0,
            r.value@.len() == 0,
            r.error@.len() == 0,
            !r.just_opened,
    {
        AddModal {
            open: false,
            key: String::new(),
            value: String::new(),
            error: String::new(),
            just_opened: false,
        }
    }
}

// ─── The editor ──────────────────────────────────────────────────────────────

/// The editor's state.
pub struct App {
    pub store: FlagStore,
    pub search: String,
    pub add_modal: AddModal,
    pub status: StatusMsg,
}

/// Text `a` followed by text `b`.
fn joined(a: &str, b: &str) -> (r: String)
    ensures
        r@ == a@ + b@,
{
    let mut r = a.to_owned();
    r.append(b);
    r
}

impl App {
    /// The editor's invariant: its store's.
    pub open spec fn wf(&self) -> bool {
        self.store.wf()
    }

    /// The editor as it starts: with the store that loading filled and a
    /// status that reports how loading went.
    pub fn new(store: FlagStore, loaded: Result<String, String>) -> (r: Self)
        requires
            store.wf(),
        ensures
            r.wf(),
            r.store == store,
            r.search@.len() == 0,
            !r.add_modal.open,
            r.add_modal.key@.len() == 0,
            r.add_modal.value@.len() == 0,
            r.add_modal.error@.len() == 0,
            match loaded {
                Ok(p) => r.status@ == ok_status("Loaded: "@ + p@),
                Err(e) => r.status@ == err_status("Could not load flags: "@ + e@),
            },
    {
        let status = match loaded {
            Ok(p) => StatusMsg::ok(joined("Loaded: ", p.as_str())),
            Err(e) => StatusMsg::err(joined("Could not load flags: ", e.as_str())),
        };
        App { store, search: String::new(), add_modal: AddModal::default(), status }
    }

    /// Records how writing the flags went: on success every dirty marker
    /// is cleared. The status reports the outcome either way.
    pub fn apply(&mut self, saved: Result<String, String>)
        requires
            old(self).wf(),
        ensures
            final(self).wf(),
            final(self).store.target() == old(self).store.target(),
            final(self).search == old(self).search,
            final(self).add_modal == old(self).add_modal,
            match saved {
                Ok(p) => final(self).store.flag_list() == cleaned(old(self).store.flag_list())
                    && final(self).status@ == ok_status("\u{2714} Applied to: "@ + p@),
                Err(e) => final(self).store.flag_list() == old(self).store.flag_list()
                    && final(self).status@ == err_status("\u{2718} Save failed: "@ + e@),
            },
    {
        match self.store.save(saved) {
            Ok(p) => {
                self.status = StatusMsg::ok(joined("\u{2714} Applied to: ", p.as_str()));
            },
            Err(e) => {
                self.status = StatusMsg::err(joined("\u{2718} Save failed: ", e.as_str()));
            },
        }
    }

    /// Records how deleting `ClientAppSettings.json` went: on success the
    /// list is emptied. The status reports the outcome either way.
    pub fn reset(&mut self, deleted: Result<(), String>)
        requires
            old(self).wf(),
        ensures
            final(self).wf(),
            final(self).store.target() == old(self).store.target(),
            final(self).search == old(self).search,
            final(self).add_modal == old(self).add_modal,
            match deleted {
                Ok(()) => final(self).store.flag_list() == Seq::<FlagView>::empty()
                    && final(self).status@ == ok_status("\u{2714} Reset: ClientAppSettings.json deleted"@),
                Err(e) => final(self).store.flag_list() == old(self).store.flag_list()
                    && final(self).status@ == err_status("\u{2718} Reset failed: "@ + e@),
            },
    {
        match self.store.reset(deleted) {
            Ok(()) => {
                self.status = StatusMsg::ok("\u{2714} Reset: ClientAppSettings.json deleted".to_owned());
            },
            Err(e) => {
                self.status = StatusMsg::err(joined("\u{2718} Reset failed: ", e.as_str()));
            },
        }
    }
}

impl App {
    /// Opens the "Add New Flag" dialog with empty fields, to focus its key
    /// field.
    pub fn open_add_dialog(&mut self)
        ensures
            final(self).store == old(self).store,
            final(self).search == old(self).search,
            final(self).status == old(self).status,
            final(self).add_modal.open,
            final(self).add_modal.just_opened,
            final(self).add_modal.key@.len() == 0,
            final(self).add_modal.value@.len() == 0,
            final(self).add_modal.error@.len() == 0,
    {
        self.add_modal = AddModal {
            open: true,
            key: String::new(),
            value: String::new(),
            error: String::new(),
            just_opened: true,
        };
    }

    /// Records how reading a preset file at `path` went: its flags replace
    /// the list, and the status reports how many there are now, or why the
    /// import failed.
    pub fn record_import(&mut self, path: &str, file: Result<String, String>)
        requires
            old(self).wf(),
        ensures
            final(self).wf(),
            final(self).store.target() == old(self).store.target(),
            final(self).search == old(self).search,
            final(self).add_modal == old(self).add_modal,
            match file {
                Err(e) => final(self).store.flag_list() == old(self).store.flag_list()
                    && final(self).status@ == err_status(
                    "\u{2718} Import failed: "@ + "Cannot read "@ + path@ + ": "@ + e@,
                ),
                Ok(content) => match json_document(content@) {
                    None => final(self).store.flag_list() == old(self).store.flag_list()
                        && final(self).status@ == err_status(
                        "\u{2718} Import failed: "@ + "Invalid JSON: "@ + json_error_message(content@),
                    ),
                    Some(DocumentView::Other(_)) => final(self).store.flag_list() == old(self).store.flag_list()
                        && final(self).status@ == err_status(
                        "\u{2718} Import failed: "@ + "JSON root must be an object"@,
                    ),
                    Some(DocumentView::Object(ms)) => final(self).store.flag_list() == listing(ms)
                        && final(self).status@ == ok_status(
                        "\u{2714} Imported "@ + decimal_text(listing(ms).len()) + " flags from "@ + path@,
                    ),
                },
            },
    {
        let ghost f = file;
        match self.store.load_from_file(path, file) {
            Ok(()) => {
                let mut m = joined("\u{2714} Imported ", decimal_string(self.store.flags().len()).as_str());
                m.append(" flags from ");
                m.append(path);
                self.status = StatusMsg::ok(m);
            },
            Err(e) => {
                self.status = StatusMsg::err(joined("\u{2718} Import failed: ", e.as_str()));
                proof {
                    match f {
                        Err(x) => {
                            assert(self.status@.text =~= "\u{2718} Import failed: "@ + "Cannot read "@ + path@ + ": "@ + x@);
                        },
                        Ok(c) => {
                            if json_document(c@) is None {
                                assert(self.status@.text =~= "\u{2718} Import failed: "@ + "Invalid JSON: "@
                                    + json_error_message(c@));
                            }
                        },
                    }
                }
            },
        }
    }

    /// Records how writing a preset file at `path` went; the flags stay.
    pub fn record_export(&mut self, path: &str, written: Result<(), String>)
        ensures
            final(self).store == old(self).store,
            final(self).search == old(self).search,
            final(self).add_modal == old(self).add_modal,
            match written {
                Ok(()) => final(self).status@ == ok_status("\u{2714} Exported to "@ + path@),
                Err(e) => final(self).status@ == err_status("\u{2718} Export failed: "@ + e@),
            },
    {
        match written {
            Ok(()) => {
                self.status = StatusMsg::ok(joined("\u{2714} Exported to ", path));
            },
            Err(e) => {
                self.status = StatusMsg::err(joined("\u{2718} Export failed: ", e.as_str()));
            },
        }
    }

    /// Removes the flag with this key and says so in the status.
    pub fn remove(&mut self, key: &str)
        requires
            old(self).wf(),
        ensures
            final(self).wf(),
            final(self).store.flag_list() == without_flag(old(self).store.flag_list(), key@),
            final(self).store.target() == old(self).store.target(),
            final(self).search == old(self).search,
            final(self).add_modal == old(self).add_modal,
            final(self).status@ == ok_status("Removed flag: "@ + key@),
    {
        self.store.remove_flag(key);
        self.status = StatusMsg::ok(joined("Removed flag: ", key));
    }
}

/// The status `try_add` reports after adding or updating `key`.
pub open spec fn added_message(existed: bool, key: Seq<char>, value: Seq<char>) -> Seq<char> {
    (if existed { "Updated"@ } else { "Added"@ }) + " flag: "@ + key + " = "@ + value
}

/// Adds the flag typed into the dialog, or updates the flag with that key:
/// the key is trimmed and must not be empty. On success the dialog closes
/// and the status reports it; on failure the dialog shows why.
pub fn try_add(app: &mut App) -> (r: bool)
    requires
        old(app).wf(),
    ensures
        final(app).wf(),
        final(app).search == old(app).search,
        final(app).store.target() == old(app).store.target(),
        final(app).add_modal.key == old(app).add_modal.key,
        final(app).add_modal.value == old(app).add_modal.value,
        final(app).add_modal.just_opened == old(app).add_modal.just_opened,
        ({
            let key = trimmed(old(app).add_modal.key@);
            let value = old(app).add_modal.value@;
            let before = old(app).store.flag_list();
            if key.len() == 0 {
                &&& !r
                &&& final(app).add_modal.error@ == "Flag name cannot be empty."@
                &&& final(app).add_modal.open == old(app).add_modal.open
                &&& final(app).store == old(app).store
                &&& final(app).status == old(app).status
            } else {
                &&& r
                &&& final(app).add_modal.error == old(app).add_modal.error
                &&& !final(app).add_modal.open
                &&& final(app).store.flag_list() == with_flag(before, key, value)
                &&& final(app).status@ == ok_status(added_message(has_key(before, key), key, value))
            }
        }),
{
    let key = trim_text(app.add_modal.key.as_str());
    let value = app.add_modal.value.clone();
    if key.unicode_len() == 0 {
        app.add_modal.error = "Flag name cannot be empty.".to_owned();
        return false;
    }
    let existed = app.store.contains_key(key.as_str());
    let verb = if existed { "Updated" } else { "Added" };
    let mut msg = verb.to_owned();
    msg.append(" flag: ");
    msg.append(key.as_str());
    msg.append(" = ");
    msg.append(value.as_str());
    app.store.set_flag(key, value);
    app.status = StatusMsg::ok(msg);
    app.add_modal.open = false;
    true
}

} // verus!
