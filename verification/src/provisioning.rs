//! Provisioning: registering a new credential with a server and making the
//! profile that carries it.
use vstd::prelude::*;
use vstd::utf8::*;

use crate::codec::{digest, random_bytes, sha256, utf8_text, wipe_bytes, wipe_text};
use crate::control::{
    distinct_fields, field_models, print_fields, says_fields, toml_fields_text, Scalar, ScalarModel,
};
use crate::error::{ErrorModel, ProfileError};
use crate::format::{modules_fit, modules_untimed};
use crate::node::{
    entry_nodes, field, find_field, lemma_entry_nodes, nodes_of_text, read_document, Node, NodeModel, Shape, ShapeModel,
};
use crate::profile::{is_name, sized, valid_name, ProfileModel, ProvisionModel, ProvisionProfile};
use crate::text::{encode_hex, hex_text, same, to_bytes, to_chars};
use crate::uri::{profile_of_uri, uri_of_profile};

verus! {

/// The most bytes that a response of the control interface may take.
pub const MAX_RESPONSE_BYTES: usize = 16_384;

/// A character of a hexadecimal text in small letters.
pub open spec fn hex_char(c: char) -> bool {
    '0' <= c <= '9' || 'a' <= c <= 'f'
}

/// Whether a text is the identifier of a user: 32 hexadecimal digits.
pub open spec fn is_user_id(text: Seq<char>) -> bool {
    &&& text.len() == 32
    &&& forall|i: int| 0 <= i < text.len() ==> hex_char(#[trigger] text[i])
}

/// Whether a credential can be asked for.
pub open spec fn can_provision(user_id: Seq<char>, client_id: Seq<char>, seq: u64) -> bool {
    is_user_id(user_id) && is_name(client_id) && seq != 0
}

/// What a request says: the digest of the credential, never the credential.
pub open spec fn request_fields(
    client_id: Seq<char>,
    seq: u64,
    user_id: Seq<char>,
    digest: Seq<u8>,
) -> Seq<(Seq<char>, ScalarModel)> {
    seq![
        ("method"@, ScalarModel::Text("credential.add"@)),
        ("client_id"@, ScalarModel::Text(client_id)),
        ("seq"@, ScalarModel::Number(seq)),
        ("user_id"@, ScalarModel::Text(user_id)),
        ("credential_sha256"@, ScalarModel::Text(hex_text(digest))),
    ]
}

/// Whether a key may stand in a response.
pub open spec fn response_key(key: Seq<char>) -> bool {
    key == "status"@ || key == "revision"@ || key == "user_id"@
}

/// The revision of a status, a revision and a user that say that the credential of
/// the user was added.
pub open spec fn revision_of_shapes(
    status: ShapeModel,
    revision: ShapeModel,
    user: ShapeModel,
    user_id: Seq<char>,
) -> Option<u64> {
    match (status, revision, user) {
        (ShapeModel::Text(status), ShapeModel::Number(revision), ShapeModel::Text(user)) => if status == "ok"@
            && revision != 0 && user == user_id {
            Some(revision)
        } else {
            None
        },
        _ => None,
    }
}

/// The revision in a response that says that the credential of the user was
/// added: the fields are its status, its revision and its user, and no other.
pub open spec fn revision_of_fields(fields: Seq<(Seq<char>, NodeModel)>, user_id: Seq<char>) -> Option<u64> {
    if forall|i: int| 0 <= i < fields.len() ==> response_key((#[trigger] fields[i]).0) {
        match (field(fields, "status"@), field(fields, "revision"@), field(fields, "user_id"@)) {
            (Some(status), Some(revision), Some(user)) => revision_of_shapes(
                status.shape,
                revision.shape,
                user.shape,
                user_id,
            ),
            _ => None,
        }
    } else {
        None
    }
}

/// The revision in the bytes of a response.
pub open spec fn revision_of_response(response: Seq<u8>, user_id: Seq<char>) -> Option<u64> {
    if response.len() == 0 || response.len() > MAX_RESPONSE_BYTES || !valid_utf8(response) {
        None
    } else {
        match nodes_of_text(decode_utf8(response)) {
            Ok(fields) => revision_of_fields(fields, user_id),
            Err(_) => None,
        }
    }
}

/// A credential that is being registered. Its secret is wiped from memory when it
/// is dropped.
pub struct AccessProvisioning {
    profile: ProvisionProfile,
    user_id: String,
    secret: [u8; 32],
    request: Vec<u8>,
}

/// A credential that was registered, and the profile that carries it.
#[derive(Clone, Debug, PartialEq, Eq)]
pub struct ProvisionedAccess {
    pub uri: String,
    pub user_id: String,
    pub revision: u64,
}

/// Tells whether a text is the identifier of a user.
fn valid_user_id(text: &str) -> (valid: bool)
    ensures
        valid == is_user_id(text@),
{
    let chars: Vec<char> = to_chars(text);
    if chars.len() != 32 {
        return false;
    }
    let mut i: usize = 0;
    while i < chars.len()
        invariant
            i <= chars.len(),
            chars@ == text@,
            forall|j: int| 0 <= j < i ==> hex_char(#[trigger] text@[j]),
        decreases chars.len() - i,
    {
        let c: char = chars[i];
        if !('0' <= c && c <= '9') && !('a' <= c && c <= 'f') {
            assert(!hex_char(text@[i as int]));
            return false;
        }
        i = i + 1;
    }
    true
}

/// The keys of a request differ.
proof fn lemma_request_keys(fields: Seq<(Seq<char>, ScalarModel)>)
    requires
        exists|client_id: Seq<char>, seq: u64, user_id: Seq<char>, digest: Seq<u8>|
            fields == request_fields(client_id, seq, user_id, digest),
    ensures
        distinct_fields(fields),
{
    reveal_strlit("method");
    reveal_strlit("client_id");
    reveal_strlit("seq");
    reveal_strlit("user_id");
    reveal_strlit("credential_sha256");
    assert("method"@.len() == 6);
    assert("client_id"@.len() == 9);
    assert("seq"@.len() == 3);
    assert("user_id"@.len() == 7);
    assert("credential_sha256"@.len() == 17);
    assert(fields.len() == 5);
}

/// A credential in hexadecimal digits is sized as credentials are.
pub proof fn lemma_hex_credential(secret: Seq<u8>)
    requires
        secret.len() == 32,
    ensures
        sized(hex_text(secret), 1024),
{
    let text = hex_text(secret);
    assert(is_ascii_chars(text));
    is_ascii_chars_encode_utf8(text);
}

impl AccessProvisioning {
    /// The profile that the credential is for.
    pub closed spec fn profile(&self) -> ProvisionModel {
        self.profile@
    }

    /// The user that the credential is for.
    pub closed spec fn user(&self) -> Seq<char> {
        self.user_id@
    }

    /// The credential.
    pub closed spec fn secret(&self) -> Seq<u8> {
        self.secret@
    }

    /// The bytes of the request.
    pub closed spec fn request_bytes(&self) -> Seq<u8> {
        self.request@
    }

    /// The profile that is handed out once the credential was added.
    pub open spec fn handed_out(&self) -> ProfileModel {
        self.profile().with(hex_text(self.secret()))
    }

    /// Whether this registers its credential for the user of this identifier.
    pub open spec fn registers(
        &self,
        profile: ProvisionModel,
        user_id: Seq<char>,
        client_id: Seq<char>,
        seq: u64,
    ) -> bool {
        let fields = request_fields(client_id, seq, user_id, sha256(self.secret()));
        &&& self.profile() == profile
        &&& self.user() == user_id
        &&& self.secret().len() == 32
        &&& sha256(self.secret()).len() == 32
        &&& toml_fields_text(fields) matches Ok(text) && self.request_bytes() == encode_utf8(text) && says_fields(
            text,
            fields,
        )
    }

    /// Registers a credential that is given.
    pub fn with_secret(
        profile: ProvisionProfile,
        user_id: &str,
        client_id: &str,
        seq: u64,
        secret: [u8; 32],
    ) -> (result: Result<AccessProvisioning, ProfileError>)
        ensures
            result matches Ok(provisioning) ==> profile@.valid() && can_provision(user_id@, client_id@, seq)
                && provisioning.secret() == secret@ && provisioning.registers(profile@, user_id@, client_id@, seq),
            result matches Err(error) ==> match error {
                ProfileError::Value => !profile@.valid(),
                ProfileError::Provisioning => profile@.valid() && !can_provision(user_id@, client_id@, seq),
                _ => false,
            },
    {
        match AccessProvisioning::check(&profile, user_id, client_id, seq) {
            Ok(_) => {},
            Err(error) => {
                return Err(error);
            },
        }
        let digest: Vec<u8> = digest(&secret);
        let mut fields: Vec<(String, Scalar)> = Vec::new();
        fields.push(("method".to_owned(), Scalar::Text("credential.add".to_owned())));
        fields.push(("client_id".to_owned(), Scalar::Text(client_id.to_owned())));
        fields.push(("seq".to_owned(), Scalar::Number(seq)));
        fields.push(("user_id".to_owned(), Scalar::Text(user_id.to_owned())));
        fields.push(("credential_sha256".to_owned(), Scalar::Text(encode_hex(&digest))));
        proof {
            assert(field_models(fields@) =~= request_fields(client_id@, seq, user_id@, digest@));
            lemma_request_keys(field_models(fields@));
        }
        match print_fields(&fields) {
            Ok(text) => Ok(
                AccessProvisioning { profile, user_id: user_id.to_owned(), secret, request: to_bytes(&text) },
            ),
            Err(message) => Err(ProfileError::TomlEncode(message)),
        }
    }

    /// Checks that a credential can be asked for.
    fn check(profile: &ProvisionProfile, user_id: &str, client_id: &str, seq: u64) -> (result: Result<
        (),
        ProfileError,
    >)
        ensures
            result is Ok <==> profile@.valid() && can_provision(user_id@, client_id@, seq),
            result matches Err(error) ==> match error {
                ProfileError::Value => !profile@.valid(),
                ProfileError::Provisioning => profile@.valid(),
                _ => false,
            },
    {
        match profile.validate() {
            Ok(_) => {},
            Err(error) => {
                return Err(error);
            },
        }
        if !valid_user_id(user_id) || !valid_name(client_id) || seq == 0 {
            return Err(ProfileError::Provisioning);
        }
        Ok(())
    }

    /// Registers a random credential.
    pub fn new(profile: ProvisionProfile, user_id: &str, client_id: &str, seq: u64) -> (result: Result<
        AccessProvisioning,
        ProfileError,
    >)
        ensures
            result matches Ok(provisioning) ==> profile@.valid() && can_provision(user_id@, client_id@, seq)
                && provisioning.registers(profile@, user_id@, client_id@, seq),
            result matches Err(error) ==> match error {
                ProfileError::Value => !profile@.valid(),
                ProfileError::Provisioning => profile@.valid() && !can_provision(user_id@, client_id@, seq),
                ProfileError::Random => profile@.valid() && can_provision(user_id@, client_id@, seq),
                _ => false,
            },
    {
        match AccessProvisioning::check(&profile, user_id, client_id, seq) {
            Ok(_) => {},
            Err(error) => {
                return Err(error);
            },
        }
        match random_bytes() {
            Ok(secret) => AccessProvisioning::with_secret(profile, user_id, client_id, seq, secret),
            Err(_) => Err(ProfileError::Random),
        }
    }

    /// The request that registers the credential.
    pub fn request(&self) -> (request: &[u8])
        ensures
            request@ == self.request_bytes(),
    {
        self.request.as_slice()
    }

    /// Makes the profile that carries the credential, once the server has said
    /// that it was added.
    pub fn finish(self, response: &[u8]) -> (result: Result<ProvisionedAccess, ProfileError>)
        ensures
            match result {
                Ok(access) => {
                    &&& revision_of_response(response@, self.user()) == Some(access.revision)
                    &&& access.user_id@ == self.user()
                    &&& uri_of_profile(self.profile().with(hex_text(self.secret()))) == Ok::<Seq<char>, ErrorModel>(
                        access.uri@,
                    )
                },
                Err(error) => match revision_of_response(response@, self.user()) {
                    Some(_) => uri_of_profile(self.profile().with(hex_text(self.secret()))) == Err::<
                        Seq<char>,
                        ErrorModel,
                    >(error@),
                    None => error is ControlResponse,
                },
            },
            result matches Ok(access) ==> uri_of_profile(self.handed_out()) == Ok::<Seq<char>, ErrorModel>(access.uri@),
            result matches Ok(access) ==> modules_untimed(self.profile().modules) && modules_fit(
                self.profile().modules,
            ) ==> profile_of_uri(access.uri@) == Ok::<ProfileModel, ErrorModel>(
                self.profile().with(hex_text(self.secret())),
            ),
    {
        let mut provisioning = self;
        let revision: u64 = match read_response(response, &provisioning.user_id) {
            Some(revision) => revision,
            None => {
                return Err(ProfileError::ControlResponse);
            },
        };
        let mut credential: String = encode_hex(&provisioning.secret);
        let profile = match provisioning.profile.copy().with_credential(&credential) {
            Ok(profile) => profile,
            Err(error) => {
                return Err(error);
            },
        };
        wipe_text(&mut credential);
        wipe_bytes(&mut provisioning.secret);
        match profile.to_uri() {
            Ok(uri) => Ok(ProvisionedAccess { uri, user_id: provisioning.user_id.clone(), revision }),
            Err(error) => Err(error),
        }
    }
}

impl Drop for AccessProvisioning {
    fn drop(&mut self)
        ensures
            final(self).secret() == Seq::new(32, |i: int| 0u8),
        opens_invariants none
        no_unwind
    {
        wipe_bytes(&mut self.secret);
    }
}

/// Reads the fields of a response.
pub fn check_fields(fields: &Vec<(String, Node)>, user_id: &str) -> (revision: Option<u64>)
    ensures
        revision == revision_of_fields(entry_nodes(fields@), user_id@),
{
    let ghost model = entry_nodes(fields@);
    proof {
        lemma_entry_nodes(fields@);
    }
    let mut i: usize = 0;
    while i < fields.len()
        invariant
            i <= fields.len(),
            model == entry_nodes(fields@),
            model.len() == fields.len(),
            forall|j: int| 0 <= j < fields@.len() ==> #[trigger] model[j] == (fields@[j].0@, fields@[j].1@),
            forall|j: int| 0 <= j < i ==> response_key((#[trigger] model[j]).0),
        decreases fields.len() - i,
    {
        let key = &fields[i].0;
        assert(model[i as int].0 == key@);
        if !same(key, "status") && !same(key, "revision") && !same(key, "user_id") {
            assert(!response_key(model[i as int].0));
            return None;
        }
        i = i + 1;
    }
    match (find_field(fields, "status"), find_field(fields, "revision"), find_field(fields, "user_id")) {
        (Some(status), Some(revision), Some(user)) => match (&status.shape, &revision.shape, &user.shape) {
            (Shape::Text(status), Shape::Number(revision), Shape::Text(user)) => {
                if same(status, "ok") && *revision != 0 && same(user, user_id) {
                    Some(*revision)
                } else {
                    None
                }
            },
            _ => None,
        },
        _ => None,
    }
}

/// Reads a response.
pub fn read_response(response: &[u8], user_id: &str) -> (revision: Option<u64>)
    ensures
        revision == revision_of_response(response@, user_id@),
{
    if response.len() == 0 || response.len() > MAX_RESPONSE_BYTES {
        return None;
    }
    match utf8_text(response) {
        Some(text) => match read_document(text) {
            Ok(fields) => check_fields(&fields, user_id),
            Err(_) => None,
        },
        None => None,
    }
}

}
