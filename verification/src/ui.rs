//! What the application shows, and what its user can do.
use vstd::prelude::*;

use crate::packages::texts_in_order;
use crate::state::{
    AppState, ConnectionModel, ConnectionState, ImportedModel, ImportedProfile, Screen, ServerStatus, StatusModel,
};
use crate::text::{copy_texts, decimal, decimal_text, join, text_views};

verus! {

/// Something that the user did.
#[derive(Clone, Debug, PartialEq, Eq)]
pub enum UiAction {
    SetScreen(Screen),
    Import(String),
    Select(usize),
    ApprovePackage(String),
    Connect,
    Disconnect,
    Export,
}

/// What the user is editing.
pub struct UiDraft {
    pub import_uri: String,
    pub advanced_config: String,
}

impl Default for UiDraft {
    fn default() -> (draft: UiDraft)
        ensures
            draft.import_uri@ == Seq::<char>::empty(),
            draft.advanced_config@ == Seq::<char>::empty(),
    {
        proof {
            reveal_strlit("");
            assert(""@ =~= Seq::<char>::empty());
        }
        UiDraft { import_uri: "".to_owned(), advanced_config: "".to_owned() }
    }
}

impl UiDraft {
    /// The import that the user asks for: none, where nothing was typed. What was
    /// typed is taken.
    pub fn take_import(&mut self) -> (action: Option<UiAction>)
        ensures
            final(self).import_uri@ == Seq::<char>::empty(),
            final(self).advanced_config@ == old(self).advanced_config@,
            match action {
                Some(UiAction::Import(uri)) => uri@ == old(self).import_uri@ && uri@.len() > 0,
                Some(_) => false,
                None => old(self).import_uri@.len() == 0,
            },
    {
        if self.import_uri.as_str().is_empty() {
            assert(self.import_uri@ =~= Seq::<char>::empty());
            return None;
        }
        proof {
            reveal_strlit("");
            assert(""@ =~= Seq::<char>::empty());
        }
        let mut uri: String = "".to_owned();
        std::mem::swap(&mut uri, &mut self.import_uri);
        Some(UiAction::Import(uri))
    }
}

/// The title of a screen.
pub open spec fn screen_title(screen: Screen) -> Seq<char> {
    match screen {
        Screen::Profiles => "Profiles"@,
        Screen::Connection => "Connection"@,
        Screen::Advanced => "Advanced"@,
    }
}

/// The title of a screen.
pub fn screen_label(screen: Screen) -> (label: &'static str)
    ensures
        label@ == screen_title(screen),
{
    match screen {
        Screen::Profiles => "Profiles",
        Screen::Connection => "Connection",
        Screen::Advanced => "Advanced",
    }
}

/// What is shown of the connection.
pub open spec fn connection_text(connection: ConnectionModel) -> Seq<char> {
    match connection {
        ConnectionModel::Disconnected => "disconnected"@,
        ConnectionModel::Connecting => "connecting"@,
        ConnectionModel::Connected => "connected"@,
        ConnectionModel::Denied(reason) => "denied: "@ + reason,
        ConnectionModel::Stopped(reason) => "stopped: "@ + reason,
    }
}

/// What is shown of the connection.
pub fn connection_label(connection: &ConnectionState) -> (label: String)
    ensures
        label@ == connection_text(connection@),
{
    match connection {
        ConnectionState::Disconnected => "disconnected".to_owned(),
        ConnectionState::Connecting => "connecting".to_owned(),
        ConnectionState::Connected => "connected".to_owned(),
        ConnectionState::Denied(reason) => join("denied: ", reason),
        ConnectionState::Stopped(reason) => join("stopped: ", reason),
    }
}

/// Whether the button that is shown with the connection connects.
pub open spec fn button_connects(connection: ConnectionModel) -> bool {
    connection is Disconnected
}

/// The button that is shown with the connection, and what it does: it connects
/// where there is no connection, and disconnects otherwise.
pub fn connection_button(connection: &ConnectionState) -> (button: (&'static str, UiAction))
    ensures
        if connection@ is Disconnected {
            button.0@ == "Connect"@ && button.1 is Connect
        } else {
            button.0@ == "Disconnect"@ && button.1 is Disconnect
        },
        button.1 is Connect <==> button_connects(connection@),
        button.1 is Disconnect <==> !button_connects(connection@),
{
    match connection {
        ConnectionState::Disconnected => ("Connect", UiAction::Connect),
        _ => ("Disconnect", UiAction::Disconnect),
    }
}

/// A number that may be missing, as 0 where it is.
pub open spec fn or_zero(number: Option<u64>) -> nat {
    match number {
        Some(number) => number as nat,
        None => 0,
    }
}

/// What is shown of the limit of an account.
pub open spec fn limit_text(limit: Option<u64>) -> Seq<char> {
    match limit {
        Some(limit) => decimal_text(limit as nat),
        None => "unlimited"@,
    }
}

/// A line that is shown where there is something to say.
pub open spec fn optional_line(prefix: Seq<char>, text: Option<Seq<char>>) -> Seq<Seq<char>> {
    match text {
        Some(text) => seq![prefix + text],
        None => Seq::empty(),
    }
}

/// What is shown of what the server says, line by line.
pub open spec fn status_text(status: StatusModel) -> Seq<Seq<char>> {
    seq![
        "used_bytes: "@ + decimal_text(status.used_bytes as nat),
        "limit_bytes: "@ + limit_text(status.limit_bytes),
        "rate: "@ + decimal_text(or_zero(status.upload_bytes_per_second)) + "/"@ + decimal_text(
            or_zero(status.download_bytes_per_second),
        ) + " B/s"@,
    ] + optional_line("expires_at: "@, status.expires_at) + optional_line("reason: "@, status.reason)
}

/// A number that may be missing, as 0 where it is.
fn number_or_zero(number: Option<u64>) -> (value: u64)
    ensures
        value == or_zero(number),
{
    match number {
        Some(number) => number,
        None => 0,
    }
}

/// What is shown of what the server says, line by line.
pub fn status_lines(status: &ServerStatus) -> (lines: Vec<String>)
    ensures
        text_views(lines@) == status_text(status@),
{
    let mut lines: Vec<String> = Vec::new();
    lines.push(join("used_bytes: ", &decimal(status.used_bytes)));
    let limit: String = match status.limit_bytes {
        Some(limit) => decimal(limit),
        None => "unlimited".to_owned(),
    };
    lines.push(join("limit_bytes: ", &limit));
    let upload = decimal(number_or_zero(status.upload_bytes_per_second));
    let download = decimal(number_or_zero(status.download_bytes_per_second));
    let rate = join(&join(&join(&join("rate: ", &upload), "/"), &download), " B/s");
    lines.push(rate);
    let ghost first = text_views(lines@);
    match &status.expires_at {
        Some(expiration) => {
            lines.push(join("expires_at: ", expiration));
        },
        None => {},
    }
    let ghost second = text_views(lines@);
    match &status.reason {
        Some(reason) => {
            lines.push(join("reason: ", reason));
        },
        None => {},
    }
    proof {
        let model = status@;
        assert(second =~= first + optional_line("expires_at: "@, model.expires_at));
        assert(text_views(lines@) =~= second + optional_line("reason: "@, model.reason));
        assert(text_views(lines@) =~= status_text(model));
    }
    lines
}

/// What is shown of a profile.
#[derive(Debug, PartialEq, Eq)]
pub struct ProfileRow {
    pub selected: bool,
    pub server_id: String,
    pub endpoint: String,
    pub source: String,
    /// The packages that wait for approval, in order.
    pub pending: Vec<String>,
}

/// Whether a row shows a profile.
pub open spec fn row_shows(row: ProfileRow, profile: ImportedModel, selected: bool) -> bool {
    &&& row.selected == selected
    &&& row.server_id@ == profile.profile.server_id
    &&& row.endpoint@ == "endpoint: "@ + profile.profile.endpoint
    &&& row.source@ == "source: "@ + profile.source
    &&& text_views(row.pending@).to_set() == profile.pending
    &&& texts_in_order(text_views(row.pending@))
}

/// What is shown of a profile.
fn profile_row(profile: &ImportedProfile, selected: bool) -> (row: ProfileRow)
    ensures
        row_shows(row, profile@, selected),
{
    ProfileRow {
        selected,
        server_id: profile.profile.server_id.clone(),
        endpoint: join("endpoint: ", &profile.profile.endpoint),
        source: join("source: ", &profile.source),
        pending: copy_texts(profile.pending_packages.list()),
    }
}

/// What is shown of the profiles, in their order.
pub fn profile_rows(state: &AppState) -> (rows: Vec<ProfileRow>)
    ensures
        rows@.len() == state@.profiles.len(),
        forall|i: int|
            0 <= i < rows@.len() ==> row_shows(
                #[trigger] rows@[i],
                state@.profiles[i],
                state@.selected == Some(i as usize),
            ),
{
    let mut rows: Vec<ProfileRow> = Vec::new();
    let mut i: usize = 0;
    while i < state.profiles.len()
        invariant
            i <= state.profiles.len(),
            rows@.len() == i,
            forall|j: int|
                0 <= j < i ==> row_shows(
                    #[trigger] rows@[j],
                    state@.profiles[j],
                    state@.selected == Some(j as usize),
                ),
        decreases state.profiles.len() - i,
    {
        let selected: bool = match state.selected {
            Some(index) => index == i,
            None => false,
        };
        rows.push(profile_row(&state.profiles[i], selected));
        i = i + 1;
    }
    rows
}

/// The label of a package that waits for approval.
pub fn approval_label(package: &str) -> (label: String)
    ensures
        label@ == "approval required: "@ + package@,
{
    join("approval required: ", package)
}

}
