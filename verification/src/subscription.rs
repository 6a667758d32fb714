//! Subscriptions: lists of profiles that a server hands out.
use vstd::prelude::*;
use vstd::utf8::*;

use crate::codec::utf8_text;
use crate::error::{ErrorModel, ProfileError};
use crate::node::{
    entry_nodes, field, find_field, item_nodes, lemma_entry_nodes, lemma_item_nodes, nodes_of_text, read_document, Node,
    NodeModel, Shape, ShapeModel,
};
use crate::profile::{Profile, ProfileModel};
use crate::secret::Secret;
use crate::text::{same, starts_with, text_views};
use crate::uri::profile_of_uri;

verus! {

/// The most bytes that a subscription may take.
pub const MAX_SUBSCRIPTION_BYTES: usize = 1_048_576;

/// The most profiles that a subscription may hold.
pub const MAX_SUBSCRIPTION_PROFILES: usize = 64;

/// How many redirects are followed for a subscription.
pub const MAX_REDIRECTS: usize = 5;

/// What is said of a document that is no subscription.
pub open spec fn not_a_subscription() -> Seq<char> {
    "document is not a list of profiles"@
}

/// The texts in an array, if it holds nothing else.
pub open spec fn texts_of_items(items: Seq<NodeModel>) -> Option<Seq<Seq<char>>> {
    if forall|i: int| 0 <= i < items.len() ==> (#[trigger] items[i]).shape is Text {
        Some(items.map_values(|item: NodeModel| item.shape->Text_0))
    } else {
        None
    }
}

/// The URIs that a document lists: it has the field `profiles`, an array of texts,
/// and no other.
pub open spec fn listed_uris(entries: Seq<(Seq<char>, NodeModel)>) -> Option<Seq<Seq<char>>> {
    if forall|i: int| 0 <= i < entries.len() ==> (#[trigger] entries[i]).0 == "profiles"@ {
        match field(entries, "profiles"@) {
            Some(node) => match node.shape {
                ShapeModel::Array(items) => texts_of_items(items),
                _ => None,
            },
            None => None,
        }
    } else {
        None
    }
}

/// The profiles of URIs, or why the first that stands for none does not.
pub open spec fn profiles_of_uris(uris: Seq<Seq<char>>) -> Result<Seq<ProfileModel>, ErrorModel>
    decreases uris.len(),
{
    if uris.len() == 0 {
        Ok(Seq::empty())
    } else {
        match profiles_of_uris(uris.drop_last()) {
            Ok(profiles) => match profile_of_uri(uris.last()) {
                Ok(profile) => Ok(profiles.push(profile)),
                Err(error) => Err(error),
            },
            Err(error) => Err(error),
        }
    }
}

/// The profiles that a document lists, or why it lists none.
pub open spec fn subscription_of_document(entries: Seq<(Seq<char>, NodeModel)>) -> Result<
    Seq<ProfileModel>,
    ErrorModel,
> {
    match listed_uris(entries) {
        Some(uris) => if uris.len() == 0 || uris.len() > MAX_SUBSCRIPTION_PROFILES {
            Err(ErrorModel::Subscription)
        } else {
            profiles_of_uris(uris)
        },
        None => Err(ErrorModel::Toml(not_a_subscription())),
    }
}

/// The profiles that the bytes of a subscription list, or why they list none.
pub open spec fn subscription_of_bytes(bytes: Seq<u8>) -> Result<Seq<ProfileModel>, ErrorModel> {
    if bytes.len() == 0 || bytes.len() > MAX_SUBSCRIPTION_BYTES {
        Err(ErrorModel::Size)
    } else if !valid_utf8(bytes) {
        Err(ErrorModel::Utf8)
    } else {
        match nodes_of_text(decode_utf8(bytes)) {
            Ok(document) => subscription_of_document(document),
            Err(message) => Err(ErrorModel::Toml(message)),
        }
    }
}

/// The models of profiles.
pub open spec fn profile_models(profiles: Seq<Profile>) -> Seq<ProfileModel> {
    profiles.map_values(|profile: Profile| profile@)
}

/// Each profile of URIs is the one that its URI stands for.
pub proof fn lemma_profiles_of_uris(uris: Seq<Seq<char>>)
    ensures
        profiles_of_uris(uris) matches Ok(profiles) ==> profiles.len() == uris.len() && forall|i: int|
            0 <= i < uris.len() ==> profile_of_uri(uris[i]) == Ok::<ProfileModel, ErrorModel>(
                #[trigger] profiles[i],
            ) && profiles[i].valid(),
    decreases uris.len(),
{
    if uris.len() > 0 {
        lemma_profiles_of_uris(uris.drop_last());
    }
}

/// Where a URI of a list stands for no profile, the list has the error of the
/// first such URI.
proof fn lemma_first_error(uris: Seq<Seq<char>>, count: int)
    requires
        0 <= count <= uris.len(),
        profiles_of_uris(uris.take(count)) is Err,
    ensures
        profiles_of_uris(uris) == profiles_of_uris(uris.take(count)),
    decreases uris.len(),
{
    if count == uris.len() {
        assert(uris.take(count) =~= uris);
    } else {
        assert(uris.drop_last().take(count) =~= uris.take(count));
        lemma_first_error(uris.drop_last(), count);
    }
}

/// Reads the URIs that a document lists.
fn decode_list(entries: &Vec<(String, Node)>) -> (uris: Option<Vec<String>>)
    ensures
        match uris {
            Some(uris) => listed_uris(entry_nodes(entries@)) == Some(text_views(uris@)),
            None => listed_uris(entry_nodes(entries@)) is None,
        },
{
    let ghost model = entry_nodes(entries@);
    proof {
        lemma_entry_nodes(entries@);
    }
    let mut i: usize = 0;
    while i < entries.len()
        invariant
            i <= entries.len(),
            model == entry_nodes(entries@),
            model.len() == entries.len(),
            forall|j: int| 0 <= j < entries@.len() ==> #[trigger] model[j] == (entries@[j].0@, entries@[j].1@),
            forall|j: int| 0 <= j < i ==> (#[trigger] model[j]).0 == "profiles"@,
        decreases entries.len() - i,
    {
        assert(model[i as int].0 == entries@[i as int].0@);
        if !same(&entries[i].0, "profiles") {
            assert(model[i as int].0 != "profiles"@);
            return None;
        }
        i = i + 1;
    }
    match find_field(entries, "profiles") {
        Some(node) => match &node.shape {
            Shape::Array(items) => decode_texts(items),
            _ => None,
        },
        None => None,
    }
}

/// Reads an array of texts.
fn decode_texts(items: &Vec<Node>) -> (texts: Option<Vec<String>>)
    ensures
        match texts {
            Some(texts) => texts_of_items(item_nodes(items@)) == Some(text_views(texts@)),
            None => texts_of_items(item_nodes(items@)) is None,
        },
{
    let ghost model = item_nodes(items@);
    proof {
        lemma_item_nodes(items@);
    }
    let mut texts: Vec<String> = Vec::new();
    let mut i: usize = 0;
    while i < items.len()
        invariant
            i <= items.len(),
            model == item_nodes(items@),
            model.len() == items.len(),
            forall|j: int| 0 <= j < items@.len() ==> #[trigger] model[j] == items@[j]@,
            texts@.len() == i,
            forall|j: int| 0 <= j < i ==> (#[trigger] model[j]).shape == ShapeModel::Text(texts@[j]@),
        decreases items.len() - i,
    {
        assert(model[i as int] == items@[i as int]@);
        match &items[i].shape {
            Shape::Text(text) => {
                texts.push(text.clone());
            },
            _ => {
                assert(!(model[i as int].shape is Text));
                return None;
            },
        }
        i = i + 1;
    }
    proof {
        assert(model.map_values(|item: NodeModel| item.shape->Text_0) =~= text_views(texts@));
    }
    Some(texts)
}

/// Reads the profiles that a document lists.
pub fn subscription_from_document(document: &Vec<(String, Node)>) -> (result: Result<Vec<Profile>, ProfileError>)
    ensures
        match result {
            Ok(profiles) => subscription_of_document(entry_nodes(document@)) == Ok::<Seq<ProfileModel>, ErrorModel>(
                profile_models(profiles@),
            ),
            Err(error) => subscription_of_document(entry_nodes(document@)) == Err::<Seq<ProfileModel>, ErrorModel>(
                error@,
            ),
        },
{
    let uris: Vec<String> = match decode_list(document) {
        Some(uris) => uris,
        None => {
            return Err(ProfileError::Toml("document is not a list of profiles".to_owned()));
        },
    };
    if uris.len() == 0 || uris.len() > MAX_SUBSCRIPTION_PROFILES {
        return Err(ProfileError::Subscription);
    }
    let ghost model = text_views(uris@);
    let mut profiles: Vec<Profile> = Vec::new();
    let mut i: usize = 0;
    proof {
        assert(profile_models(profiles@) =~= Seq::<ProfileModel>::empty());
    }
    while i < uris.len()
        invariant
            i <= uris.len() <= MAX_SUBSCRIPTION_PROFILES,
            uris.len() > 0,
            model == text_views(uris@),
            listed_uris(entry_nodes(document@)) == Some(model),
            profiles_of_uris(model.take(i as int)) == Ok::<Seq<ProfileModel>, ErrorModel>(
                profile_models(profiles@),
            ),
        decreases uris.len() - i,
    {
        proof {
            assert(model.take(i + 1).drop_last() =~= model.take(i as int));
            assert(model.take(i + 1).last() == uris@[i as int]@);
        }
        match Profile::from_uri(&uris[i]) {
            Ok(profile) => {
                let ghost known = profile_models(profiles@);
                profiles.push(profile);
                proof {
                    assert(profile_models(profiles@) =~= known.push(profile@));
                }
            },
            Err(error) => {
                proof {
                    lemma_first_error(model, i + 1);
                }
                return Err(error);
            },
        }
        i = i + 1;
    }
    proof {
        assert(model.take(model.len() as int) =~= model);
    }
    Ok(profiles)
}

/// Reads a subscription. It holds at least one profile and at most
/// [`MAX_SUBSCRIPTION_PROFILES`], all of them valid.
pub fn parse_subscription(input: &[u8]) -> (result: Result<Vec<Profile>, ProfileError>)
    ensures
        match result {
            Ok(profiles) => subscription_of_bytes(input@) == Ok::<Seq<ProfileModel>, ErrorModel>(
                profile_models(profiles@),
            ),
            Err(error) => subscription_of_bytes(input@) == Err::<Seq<ProfileModel>, ErrorModel>(error@),
        },
        result matches Ok(profiles) ==> 0 < profiles@.len() <= MAX_SUBSCRIPTION_PROFILES && forall|i: int|
            0 <= i < profiles@.len() ==> (#[trigger] profiles@[i])@.valid(),
{
    if input.len() == 0 || input.len() > MAX_SUBSCRIPTION_BYTES {
        return Err(ProfileError::Size);
    }
    let text: &str = match utf8_text(input) {
        Some(text) => text,
        None => {
            return Err(ProfileError::Utf8);
        },
    };
    match read_document(text) {
        Ok(document) => {
            let result = subscription_from_document(&document);
            proof {
                if result is Ok {
                    let profiles = result->Ok_0;
                    let uris = listed_uris(entry_nodes(document@))->0;
                    lemma_profiles_of_uris(uris);
                    assert forall|i: int| 0 <= i < profiles@.len() implies (#[trigger] profiles@[i])@.valid() by {
                        assert(profile_models(profiles@)[i].valid());
                    }
                }
            }
            result
        },
        Err(message) => Err(ProfileError::Toml(message)),
    }
}

/// How a subscription is fetched.
pub struct FetchPlan {
    pub url: String,
    pub bearer: Secret,
    pub redirects: usize,
    pub limit: u64,
}

/// Decides whether and how a subscription is fetched: over HTTPS, with a bearer
/// token, following few redirects, and reading at most one byte more than a
/// subscription may take.
pub fn prepare_fetch(url: &str, bearer: &Secret) -> (result: Result<FetchPlan, ProfileError>)
    ensures
        result is Ok <==> "https://"@.is_prefix_of(url@) && bearer@.len() > 0,
        result matches Ok(plan) ==> {
            &&& plan.url@ == url@
            &&& plan.bearer@ == bearer@
            &&& plan.redirects == MAX_REDIRECTS
            &&& plan.limit == MAX_SUBSCRIPTION_BYTES + 1
            &&& plan.redirects == 5
            &&& plan.limit == 1_048_577
        },
        result matches Err(error) ==> error is Subscription,
{
    if !starts_with(url, "https://") || bearer.expose().is_empty() {
        return Err(ProfileError::Subscription);
    }
    Ok(
        FetchPlan {
            url: url.to_owned(),
            bearer: bearer.copy(),
            redirects: MAX_REDIRECTS,
            limit: MAX_SUBSCRIPTION_BYTES as u64 + 1,
        },
    )
}

/// Decides whether the body of a response is read, by the length that the server
/// gave for it, if it gave one.
pub fn accept_length(length: Option<u64>) -> (result: Result<(), ProfileError>)
    ensures
        result is Err <==> (length matches Some(length) && length > MAX_SUBSCRIPTION_BYTES),
        result is Ok <==> (length matches Some(length) ==> length <= 1_048_576),
        result matches Err(error) ==> error is Size,
{
    match length {
        Some(length) => if length > MAX_SUBSCRIPTION_BYTES as u64 {
            Err(ProfileError::Size)
        } else {
            Ok(())
        },
        None => Ok(()),
    }
}

}
