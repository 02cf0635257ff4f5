//! Identifiers handed to plugin sessions.
use vstd::prelude::*;
use crate::digest::hex_char;
use std::hash::Hasher;

verus! {

/// Feeds a path to a hasher with `<Path as Hash>::hash`. Trusted, with no
/// contract: what the hasher receives depends on the platform's path
/// rules and on the width and byte order of `usize`.
#[verifier::external_body]
fn hash_path_into(hasher: &mut std::hash::DefaultHasher, path: &str) {
    std::hash::Hash::hash(std::path::Path::new(path), hasher)
}

/// Hashes a path as `DefaultHasher::new()` and `Path::hash` do; the value
/// differs between platforms.
fn hash_path(path: &str) -> u64 {
    let mut hasher = std::hash::DefaultHasher::new();
    hash_path_into(&mut hasher, path);
    hasher.finish()
}

/// The last `n` hexadecimal digits of `v`, lowercase, most significant
/// first, with leading zeros.
pub open spec fn fixed_hex(v: nat, n: nat) -> Seq<char>
    decreases n,
{
    if n == 0 {
        Seq::empty()
    } else {
        fixed_hex(v / 16, (n - 1) as nat).push(hex_char((v % 16) as u8))
    }
}

/// The lowercase hexadecimal digit of a nibble.
fn hex_digit(nibble: u8) -> (result: char)
    requires
        nibble < 16,
    ensures
        result == hex_char(nibble),
{
    if nibble < 10 {
        (nibble + 48) as char
    } else {
        (nibble + 87) as char
    }
}

/// The last `n` hexadecimal digits of `v`.
fn fixed_hex_exec(v: u64, n: usize) -> (result: Vec<char>)
    ensures
        result@ == fixed_hex(v as nat, n as nat),
    decreases n,
{
    if n == 0 {
        let empty: Vec<char> = Vec::new();
        assert(empty@ =~= fixed_hex(v as nat, 0));
        return empty;
    }
    let mut digits = fixed_hex_exec(v / 16, n - 1);
    digits.push(hex_digit((v % 16) as u8));
    digits
}

/// A document identifier: some 64-bit value as 16 lowercase hexadecimal
/// digits.
pub open spec fn is_document_id(id: Seq<char>) -> bool {
    exists|h: u64| id == fixed_hex(h as nat, 16)
}

/// The identifier of the document at `path` in a plugin session: the hash
/// of the path as 16 lowercase hexadecimal digits. Which hash value a path
/// gets depends on the platform, so only its form is stated;
/// `fixed_hex_text` states the formatting of a given hash.
pub fn document_id(path: &str) -> (result: String)
    ensures
        is_document_id(result@),
{
    let hash = hash_path(path);
    let result = crate::text::string_from_chars(&fixed_hex_exec(hash, 16));
    assert(result@ == fixed_hex(hash as nat, 16));
    result
}

/// `value` as 16 lowercase hexadecimal digits (`{:016x}`).
pub fn fixed_hex_text(value: u64) -> (result: String)
    ensures
        result@ == fixed_hex(value as nat, 16),
{
    crate::text::string_from_chars(&fixed_hex_exec(value, 16))
}


/// The kind of canvas tool a plugin session has selected.
#[derive(Debug, Clone, Copy, PartialEq, Eq, Structural)]
pub enum ToolKind {
    Text,
    Rectangle,
    NumberedStep,
}

/// A running plugin UI session: the plugin, what the application keeps of
/// the session (its panel, canvas state and process), the canvas tool it
/// has selected, and whether an event is being handled.
pub struct ActiveSession<S> {
    pub plugin_id: String,
    pub session: S,
    pub tool: Option<ToolKind>,
    pub busy: bool,
}

/// The plugin UI sessions: the generation that completions must match, the
/// running session, and the last failure to show.
pub struct PluginSessionState<S> {
    pub generation: u64,
    pub active: Option<ActiveSession<S>>,
    pub feedback: Option<String>,
}

/// What became of the reply to a UI event.
#[derive(Debug, Clone, Copy, PartialEq, Eq, Structural)]
pub enum EventReply {
    /// The session it belonged to is gone: nothing changed.
    Ignored,
    /// The session took the new state; `tool_changed` says whether the
    /// canvas tool changed kind (or appeared or went away).
    Updated { tool_changed: bool },
    /// The plugin failed: the session stays busy and the failure shows.
    Failed,
}

/// Whether a plugin command may open its panel: no edit session and no
/// settings panel open, the plugin installed, the canvas available if the
/// plugin draws on it, the command's panel declared, and an image shown.
pub open spec fn spec_can_activate(
    editing: bool,
    settings_open: bool,
    plugin_found: bool,
    needs_canvas: bool,
    canvas_available: bool,
    panel_found: bool,
    image_shown: bool,
) -> bool {
    !editing && !settings_open && plugin_found && (!needs_canvas || canvas_available) && panel_found && image_shown
}

/// Decides whether a plugin command may open its panel.
pub fn can_activate(
    editing: bool,
    settings_open: bool,
    plugin_found: bool,
    needs_canvas: bool,
    canvas_available: bool,
    panel_found: bool,
    image_shown: bool,
) -> (result: bool)
    ensures
        result == spec_can_activate(editing, settings_open, plugin_found, needs_canvas, canvas_available, panel_found, image_shown),
{
    !editing && !settings_open && plugin_found && (!needs_canvas || canvas_available) && panel_found && image_shown
}

impl<S> PluginSessionState<S> {
    /// No session, nothing to report.
    pub fn new() -> (result: Self)
        ensures
            result.generation == 0,
            result.active is None,
            result.feedback is None,
    {
        PluginSessionState { generation: 0, active: None, feedback: None }
    }

    /// Whether the running session has its text tool selected.
    pub fn is_text_tool_active(&self) -> (result: bool)
        ensures
            result == (self.active matches Some(a) && a.tool == Some(ToolKind::Text)),
    {
        match &self.active {
            Some(active) => match active.tool {
                Some(ToolKind::Text) => true,
                _ => false,
            },
            None => false,
        }
    }

    /// Ends the running session, if any, and starts a new generation so
    /// that replies still on their way are ignored; gives the session to
    /// shut down.
    pub fn close(&mut self) -> (result: Option<ActiveSession<S>>)
        ensures
            final(self).generation == crate::plugin_management::next_generation(old(self).generation),
            final(self).active is None,
            final(self).feedback == old(self).feedback,
            result == old(self).active,
    {
        self.generation = self.generation.wrapping_add(1);
        let mut closed: Option<ActiveSession<S>> = None;
        std::mem::swap(&mut closed, &mut self.active);
        closed
    }

    /// Starts opening a panel: the running session is closed and given
    /// back, a further generation begins for the new session, and the last
    /// failure is cleared. Gives the new generation.
    pub fn begin_activation(&mut self) -> (result: (u64, Option<ActiveSession<S>>))
        ensures
            final(self).generation == crate::plugin_management::next_generation(
                crate::plugin_management::next_generation(old(self).generation),
            ),
            result.0 == final(self).generation,
            result.1 == old(self).active,
            final(self).active is None,
            final(self).feedback is None,
    {
        let closed = self.close();
        self.generation = self.generation.wrapping_add(1);
        self.feedback = None;
        (self.generation, closed)
    }

    /// Takes the outcome of opening a panel begun at `generation`: ignored
    /// when superseded; otherwise the session runs, or its failure shows.
    /// Gives whether it was taken.
    pub fn finish_activation(&mut self, generation: u64, outcome: Result<ActiveSession<S>, String>) -> (result: bool)
        ensures
            result == (old(self).generation == generation),
            !result ==> *final(self) == *old(self),
            final(self).generation == old(self).generation,
            result ==> match outcome {
                Ok(session) => final(self).active == Some(session) && final(self).feedback == old(self).feedback,
                Err(message) => final(self).active == old(self).active && final(self).feedback == Some(message),
            },
    {
        if self.generation != generation {
            return false;
        }
        match outcome {
            Ok(session) => {
                self.active = Some(session);
            },
            Err(message) => {
                self.feedback = Some(message);
            },
        }
        true
    }

    /// Starts handling a UI event: only with a running session that is not
    /// busy, which then becomes busy. Gives the generation and the plugin
    /// to send the event to.
    pub fn begin_event(&mut self) -> (result: Option<(u64, String)>)
        ensures
            match old(self).active {
                Some(a) => if a.busy {
                    result is None && *final(self) == *old(self)
                } else {
                    &&& result matches Some((g, id)) && g == old(self).generation && id@ == a.plugin_id@
                    &&& final(self).active == Some(ActiveSession { busy: true, ..a })
                    &&& final(self).generation == old(self).generation
                    &&& final(self).feedback == old(self).feedback
                },
                None => result is None && *final(self) == *old(self),
            },
    {
        let generation = self.generation;
        match &mut self.active {
            Some(active) => {
                if active.busy {
                    return None;
                }
                active.busy = true;
                Some((generation, crate::text::string_from_chars(&crate::text::chars_of(active.plugin_id.as_str()))))
            },
            None => None,
        }
    }

    /// Takes the reply to a UI event sent at `generation` to `plugin_id`:
    /// the new session state and canvas tool, or the failure. A reply for a
    /// session that is no longer running changes nothing. A new state is
    /// taken and the session is free again; a failure keeps it busy and
    /// shows.
    pub fn finish_event(
        &mut self,
        generation: u64,
        plugin_id: &str,
        reply: Result<(S, Option<ToolKind>), String>,
    ) -> (result: EventReply)
        ensures
            final(self).generation == old(self).generation,
            (old(self).generation != generation || old(self).active is None || old(self).active->0.plugin_id@ != plugin_id@)
                ==> result == EventReply::Ignored && *final(self) == *old(self),
            (old(self).generation == generation && old(self).active is Some && old(self).active->0.plugin_id@ == plugin_id@)
                ==> match reply {
                Ok((session, tool)) => {
                    &&& result == EventReply::Updated { tool_changed: tool != old(self).active->0.tool }
                    &&& final(self).active == Some(ActiveSession {
                        plugin_id: old(self).active->0.plugin_id,
                        session,
                        tool,
                        busy: false,
                    })
                    &&& final(self).feedback == old(self).feedback
                },
                Err(message) => {
                    &&& result == EventReply::Failed
                    &&& final(self).active == Some(ActiveSession { busy: true, ..old(self).active->0 })
                    &&& final(self).feedback == Some(message)
                },
            },
    {
        if self.generation != generation {
            return EventReply::Ignored;
        }
        let current = match &mut self.active {
            Some(active) => active,
            None => return EventReply::Ignored,
        };
        if !crate::text::chars_equal(&crate::text::chars_of(current.plugin_id.as_str()), &crate::text::chars_of(plugin_id)) {
            return EventReply::Ignored;
        }
        match reply {
            Ok((session, tool)) => {
                let tool_changed = match (current.tool, tool) {
                    (Some(a), Some(b)) => a != b,
                    (None, None) => false,
                    _ => true,
                };
                current.session = session;
                current.tool = tool;
                current.busy = false;
                EventReply::Updated { tool_changed }
            },
            Err(message) => {
                current.busy = true;
                self.feedback = Some(message);
                EventReply::Failed
            },
        }
    }
}

} // verus!
