//! What the application shows and says.
use vstd::prelude::*;

use crate::error::ErrorModel;
use crate::state::{ConnectionModel, ImportedModel, Screen, StatusModel};
use crate::text::{decimal_text, text_views};
use crate::ui::{button_connects, connection_text, row_shows, screen_title, status_text, ProfileRow};

verus! {

/// Each error says what went wrong, with the detail that it carries.
pub proof fn law_errors_say_what_went_wrong(error: ErrorModel)
    ensures
        error is Size ==> error.message() == "profile size is invalid"@,
        error is Scheme ==> error.message() == "profile URI scheme is invalid"@,
        error is Base64 ==> error.message() == "profile base64 is invalid"@,
        error is Utf8 ==> error.message() == "profile is not UTF-8"@,
        error matches ErrorModel::Toml(detail) ==> error.message() == "profile TOML is invalid: "@ + detail,
        error matches ErrorModel::TomlEncode(detail) ==> error.message() == "profile TOML cannot be encoded: "@
            + detail,
        error is Value ==> error.message() == "profile value is invalid"@,
        error is Subscription ==> error.message() == "subscription is invalid"@,
        error matches ErrorModel::Network(detail) ==> error.message() == "network request failed: "@ + detail,
        error matches ErrorModel::Io(detail) ==> error.message() == "subscription I/O failed: "@ + detail,
        error is Path ==> error.message() == "client path is invalid"@,
        error matches ErrorModel::Generated(detail) ==> error.message() == "generated configuration is invalid: "@
            + detail,
        error is DuplicateServer ==> error.message() == "server_id is already imported"@,
        error is Selection ==> error.message() == "profile selection is invalid"@,
        error is PackageApproval ==> error.message() == "native package requires approval"@,
        error is BundledModule ==> error.message() == "bundled native module is unavailable or invalid"@,
        error is Random ==> error.message() == "credential generation failed"@,
        error is Provisioning ==> error.message() == "provisioning input is invalid"@,
        error is ControlResponse ==> error.message() == "policy control response is invalid"@,
{
}

/// The titles of screens differ, and so does what is shown of connections that stand
/// in different ways; the reason of one that was denied, or stopped, is shown with it.
pub proof fn law_screens_and_connections_are_told_apart(
    screen: Screen,
    other: Screen,
    connection: ConnectionModel,
    reason: Seq<char>,
)
    ensures
        screen_title(screen) == screen_title(other) ==> screen == other,
        connection_text(ConnectionModel::Denied(reason)) == "denied: "@ + reason,
        connection_text(ConnectionModel::Stopped(reason)) == "stopped: "@ + reason,
        connection is Disconnected <==> connection_text(connection) == "disconnected"@,
        connection is Connecting <==> connection_text(connection) == "connecting"@,
        connection is Connected <==> connection_text(connection) == "connected"@,
        button_connects(connection) <==> connection_text(connection) == "disconnected"@,
{
    reveal_strlit("Profiles");
    reveal_strlit("Connection");
    reveal_strlit("Advanced");
    assert("Profiles"@.len() == 8 && "Profiles"@[0] == 'P' && "Connection"@.len() == 10);
    assert("Advanced"@.len() == 8 && "Advanced"@[0] == 'A');
    reveal_strlit("disconnected");
    reveal_strlit("connecting");
    reveal_strlit("connected");
    reveal_strlit("denied: ");
    reveal_strlit("stopped: ");
    assert("disconnected"@.len() == 12 && "disconnected"@[1] == 'i' && "connecting"@.len() == 10);
    assert("connected"@.len() == 9 && "connecting"@[0] == 'c' && "connected"@[0] == 'c' && "disconnected"@[0] == 'd');
    match connection {
        ConnectionModel::Denied(why) => {
            assert(("denied: "@ + why)[0] == 'd' && ("denied: "@ + why)[1] == 'e');
        },
        ConnectionModel::Stopped(why) => {
            assert(("stopped: "@ + why)[0] == 's');
        },
        _ => {},
    }
}

/// A number that may be missing, as it is shown of a rate.
pub open spec fn shown_rate(rate: Option<u64>) -> Seq<char> {
    match rate {
        Some(rate) => decimal_text(rate as nat),
        None => decimal_text(0),
    }
}

/// What the server says is shown in three lines, what was used, the limit and the
/// rates up and down, and in one more each for when the account expires and for a
/// reason, where there is one.
pub proof fn law_status_is_shown_line_by_line(status: StatusModel)
    ensures
        ({
            let lines = status_text(status);
            &&& lines.len() == 3 + (if status.expires_at is Some { 1int } else { 0 }) + (if status.reason is Some {
                1int
            } else {
                0
            })
            &&& lines[0] == "used_bytes: "@ + decimal_text(status.used_bytes as nat)
            &&& match status.limit_bytes {
                Some(limit) => lines[1] == "limit_bytes: "@ + decimal_text(limit as nat),
                None => lines[1] == "limit_bytes: "@ + "unlimited"@,
            }
            &&& lines[2] == "rate: "@ + shown_rate(status.upload_bytes_per_second) + "/"@ + shown_rate(
                status.download_bytes_per_second,
            ) + " B/s"@
            &&& status.expires_at matches Some(time) ==> lines[3] == "expires_at: "@ + time
            &&& status.reason matches Some(reason) ==> lines.last() == "reason: "@ + reason
        }),
{
}

/// The row of a profile shows its server, where it is, where the profile came from,
/// whether it is selected, and each package of it that waits for approval.
pub proof fn law_rows_show_their_profiles(row: ProfileRow, imported: ImportedModel, selected: bool)
    requires
        row_shows(row, imported, selected),
    ensures
        row.selected == selected,
        row.server_id@ == imported.profile.server_id,
        row.endpoint@ == "endpoint: "@ + imported.profile.endpoint,
        row.source@ == "source: "@ + imported.source,
        forall|package: Seq<char>| #[trigger]
            text_views(row.pending@).contains(package) <==> imported.pending.contains(package),
{
    assert forall|package: Seq<char>| #[trigger]
        text_views(row.pending@).contains(package) <==> imported.pending.contains(package) by {
        assert(text_views(row.pending@).to_set().contains(package) <==> text_views(row.pending@).contains(package));
    }
}

}
