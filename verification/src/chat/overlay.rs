//! Changing the providers: a patch to one, a new one, one deleted.

use vstd::prelude::*;
use vstd::string::*;

use crate::chat::registry::{mint_added_id, slug, Alternate, Auth, Overlay, OverlayView, ProviderRow, Wire};
use crate::flow::graph::Text;
use crate::flow::ids::is_fresh_id;
use crate::records::{drop_all, find, first_with, keys_of, lemma_first_with, lemma_others, others};
use crate::strmap::{
    drop_text, lemma_push_contains, lemma_text_insert, lemma_text_remove, lemma_without_none, lemma_without_other, without,
};
use crate::text::{contains_text, join2, lowercase, opt_str, same, texts, trim, trimmed};

verus! {

/// A change to one provider. `None` leaves a thing as it is; an inner `None` takes back what was
/// set before.
pub struct ProviderPatch {
    pub model: Option<Option<String>>,
    pub region: Option<Option<String>>,
    pub hidden: Option<bool>,
}

pub struct PatchView {
    pub model: Option<Option<Text>>,
    pub region: Option<Option<Text>>,
    pub hidden: Option<bool>,
}

pub open spec fn inner_text(s: Option<Option<String>>) -> Option<Option<Text>> {
    match s {
        None => None,
        Some(None) => Some(None),
        Some(Some(t)) => Some(Some(t@)),
    }
}

impl View for ProviderPatch {
    type V = PatchView;

    open spec fn view(&self) -> PatchView {
        PatchView { model: inner_text(self.model), region: inner_text(self.region), hidden: self.hidden }
    }
}

impl ProviderPatch {
    /// A patch that changes nothing.
    pub fn new() -> (r: Self)
        ensures
            r@ == (PatchView { model: None, region: None, hidden: None }),
    {
        ProviderPatch { model: None, region: None, hidden: None }
    }

    pub fn is_empty(&self) -> (r: bool)
        ensures
            r == (self@.model is None && self@.region is None && self@.hidden is None),
    {
        self.model.is_none() && self.region.is_none() && self.hidden.is_none()
    }
}

/// The addresses of the alternates.
pub open spec fn addresses(v: Seq<Alternate>) -> Seq<Text> {
    v.map_values(|a: Alternate| a.base_url@)
}

/// What came of a step: the overlay as it stands, and the error, if there was one.
#[verifier::ext_equal]
pub struct Patched {
    pub overlay: OverlayView,
    pub error: Option<Text>,
}

/// The model of `id` set to a name without the blanks around it, or taken back.
pub open spec fn patch_model(ov: OverlayView, id: Text, model: Option<Option<Text>>) -> Patched {
    match model {
        None => Patched { overlay: ov, error: None },
        Some(None) => Patched { overlay: OverlayView { model: ov.model.remove(id), ..ov }, error: None },
        Some(Some(m)) => if trimmed(m).len() == 0 {
            Patched { overlay: ov, error: Some("Model must be a non-empty string."@) }
        } else {
            Patched { overlay: OverlayView { model: ov.model.insert(id, trimmed(m)), ..ov }, error: None }
        },
    }
}

/// The address of `id` set to one of the row's alternates, or taken back.
pub open spec fn patch_region(ov: OverlayView, id: Text, region: Option<Option<Text>>, alternates: Seq<Text>) -> Patched {
    match region {
        None => Patched { overlay: ov, error: None },
        Some(None) => Patched { overlay: OverlayView { region: ov.region.remove(id), ..ov }, error: None },
        Some(Some(r)) => if !alternates.contains(r) {
            Patched { overlay: ov, error: Some("That region is not available for this provider."@) }
        } else {
            Patched { overlay: OverlayView { region: ov.region.insert(id, r), ..ov }, error: None }
        },
    }
}

/// `id` hidden or shown again, where it is built in.
pub open spec fn patch_hidden(ov: OverlayView, id: Text, hidden: Option<bool>, builtin: bool) -> Patched {
    match hidden {
        None => Patched { overlay: ov, error: None },
        Some(h) => if !builtin {
            Patched { overlay: ov, error: Some("User-added providers can be deleted, not hidden."@) }
        } else if h {
            Patched {
                overlay: OverlayView { hidden: if ov.hidden.contains(id) { ov.hidden } else { ov.hidden.push(id) }, ..ov },
                error: None,
            }
        } else {
            Patched { overlay: OverlayView { hidden: without(ov.hidden, id), ..ov }, error: None }
        },
    }
}

/// The patch, one thing after the other; the first that is refused ends it, and what went before
/// it stands.
pub open spec fn patched(rows: Seq<ProviderRow>, ov: OverlayView, id: Text, patch: PatchView) -> Patched {
    match first_with(rows, id) {
        None => Patched { overlay: ov, error: Some("Unknown provider id: "@ + id) },
        Some(row) => {
            let a = patch_model(ov, id, patch.model);
            if a.error is Some {
                a
            } else {
                let b = patch_region(a.overlay, id, patch.region, addresses(row.alternates@));
                if b.error is Some {
                    b
                } else {
                    patch_hidden(b.overlay, id, patch.hidden, row.builtin)
                }
            }
        },
    }
}

pub open spec fn error_of(r: Result<(), String>) -> Option<Text> {
    match r {
        Ok(_) => None,
        Err(e) => Some(e@),
    }
}

fn has_address(alternates: &Vec<Alternate>, address: &str) -> (r: bool)
    ensures
        r == addresses(alternates@).contains(address@),
{
    let mut i: usize = 0;
    while i < alternates.len()
        invariant
            i <= alternates@.len(),
            forall|j: int| 0 <= j < i ==> (#[trigger] alternates@[j]).base_url@ != address@,
        decreases alternates@.len() - i,
    {
        if same(&alternates[i].base_url, address) {
            assert(addresses(alternates@)[i as int] == address@);
            return true;
        }
        i += 1;
    }
    assert forall|j: int| 0 <= j < addresses(alternates@).len() implies addresses(alternates@)[j] != address@ by {
        assert(alternates@[j].base_url@ != address@);
    }
    false
}

fn change_model(ov: &mut Overlay, id: &str, model: &Option<Option<String>>) -> (r: Result<(), String>)
    ensures
        final(ov)@ == patch_model(old(ov)@, id@, inner_text(*model)).overlay,
        error_of(r) == patch_model(old(ov)@, id@, inner_text(*model)).error,
{
    match model {
        None => Ok(()),
        Some(None) => {
            proof { lemma_text_remove(ov.model@, id@); }
            ov.model.remove(id);
            Ok(())
        },
        Some(Some(m)) => {
            let name = trim(m);
            if name.unicode_len() == 0 {
                return Err("Model must be a non-empty string.".to_owned());
            }
            proof { lemma_text_insert(ov.model@, id@, name); }
            ov.model.set(id, name);
            Ok(())
        },
    }
}

fn change_region(ov: &mut Overlay, id: &str, region: &Option<Option<String>>, alternates: &Vec<Alternate>) -> (r: Result<(), String>)
    ensures
        final(ov)@ == patch_region(old(ov)@, id@, inner_text(*region), addresses(alternates@)).overlay,
        error_of(r) == patch_region(old(ov)@, id@, inner_text(*region), addresses(alternates@)).error,
{
    match region {
        None => Ok(()),
        Some(None) => {
            proof { lemma_text_remove(ov.region@, id@); }
            ov.region.remove(id);
            Ok(())
        },
        Some(Some(address)) => {
            if !has_address(alternates, address) {
                return Err("That region is not available for this provider.".to_owned());
            }
            let pinned = address.clone();
            proof { lemma_text_insert(ov.region@, id@, pinned); }
            ov.region.set(id, pinned);
            Ok(())
        },
    }
}

fn change_hidden(ov: &mut Overlay, id: &str, hidden: Option<bool>, builtin: bool) -> (r: Result<(), String>)
    ensures
        final(ov)@ == patch_hidden(old(ov)@, id@, hidden, builtin).overlay,
        error_of(r) == patch_hidden(old(ov)@, id@, hidden, builtin).error,
{
    match hidden {
        None => Ok(()),
        Some(h) => {
            if !builtin {
                return Err("User-added providers can be deleted, not hidden.".to_owned());
            }
            if h {
                if !contains_text(&ov.hidden, id) {
                    let ghost before = texts(ov.hidden@);
                    ov.hidden.push(id.to_owned());
                    assert(texts(ov.hidden@) =~= before.push(id@));
                }
            } else {
                ov.hidden = drop_text(&ov.hidden, id);
            }
            Ok(())
        },
    }
}

/// Applies a patch to the provider `id`.
pub fn apply_patch(rows: &Vec<ProviderRow>, ov: &mut Overlay, id: &str, patch: &ProviderPatch) -> (r: Result<(), String>)
    ensures
        final(ov)@ == patched(rows@, old(ov)@, id@, patch@).overlay,
        error_of(r) == patched(rows@, old(ov)@, id@, patch@).error,
{
    let row = match find(rows, id) {
        Some(row) => row,
        None => return Err(join2("Unknown provider id: ", id)),
    };
    if let Err(e) = change_model(ov, id, &patch.model) {
        return Err(e);
    }
    if let Err(e) = change_region(ov, id, &patch.region, &row.alternates) {
        return Err(e);
    }
    change_hidden(ov, id, patch.hidden, row.builtin)
}

/// A request to change the provider `id`: one that changes nothing is refused.
pub fn chat_provider_set(rows: &Vec<ProviderRow>, ov: &mut Overlay, id: &str, patch: &ProviderPatch) -> (r: Result<(), String>)
    ensures
        patch@ == (PatchView { model: None, region: None, hidden: None }) ==> final(ov)@ == old(ov)@ && error_of(r) == Some(
            "Nothing to set — pass model, region, or hidden."@,
        ),
        patch@ != (PatchView { model: None, region: None, hidden: None }) ==> {
            &&& final(ov)@ == patched(rows@, old(ov)@, trimmed(id@), patch@).overlay
            &&& error_of(r) == patched(rows@, old(ov)@, trimmed(id@), patch@).error
        },
{
    if patch.is_empty() {
        return Err("Nothing to set — pass model, region, or hidden.".to_owned());
    }
    let name = trim(id);
    apply_patch(rows, ov, &name, patch)
}

// ---- what holds of patches ----

/// An address that a patch pins is one of the provider's alternates.
pub proof fn law_regions_are_alternates(rows: Seq<ProviderRow>, ov: OverlayView, id: Text, patch: PatchView)
    ensures
        ({
            let after = patched(rows, ov, id, patch).overlay;
            after.region.contains_key(id) && !(ov.region.contains_key(id) && ov.region[id] == after.region[id]) ==> (first_with(rows, id) matches Some(
                row,
            ) && addresses(row.alternates@).contains(after.region[id]))
        }),
{
}

/// A model that a patch sets is not blank.
pub proof fn law_models_are_not_blank(rows: Seq<ProviderRow>, ov: OverlayView, id: Text, patch: PatchView)
    requires
        forall|k: Text| #[trigger] ov.model.contains_key(k) ==> ov.model[k].len() > 0,
    ensures
        forall|k: Text| #[trigger] patched(rows, ov, id, patch).overlay.model.contains_key(k) ==> patched(rows, ov, id, patch).overlay.model[k].len() > 0,
{
}

/// A patch to one provider changes nothing about another.
pub proof fn law_patches_touch_one_provider(rows: Seq<ProviderRow>, ov: OverlayView, id: Text, patch: PatchView, other: Text)
    requires
        other != id,
    ensures
        ({
            let after = patched(rows, ov, id, patch).overlay;
            &&& after.model.contains_key(other) == ov.model.contains_key(other)
            &&& after.model.contains_key(other) ==> after.model[other] == ov.model[other]
            &&& after.region.contains_key(other) == ov.region.contains_key(other)
            &&& after.region.contains_key(other) ==> after.region[other] == ov.region[other]
            &&& after.hidden.contains(other) == ov.hidden.contains(other)
            &&& after.added == ov.added
        }),
{
    lemma_without_other(ov.hidden, id, other);
    lemma_push_contains(ov.hidden, id, other);
}

/// Showing a built-in provider undoes hiding it, and hiding it twice is hiding it once.
pub proof fn law_hiding_can_be_undone(ov: OverlayView, id: Text)
    ensures
        ({
            let hidden = patch_hidden(ov, id, Some(true), true).overlay;
            &&& hidden.hidden.contains(id)
            &&& patch_hidden(hidden, id, Some(true), true).overlay == hidden
            &&& !patch_hidden(hidden, id, Some(false), true).overlay.hidden.contains(id)
            &&& !ov.hidden.contains(id) ==> patch_hidden(hidden, id, Some(false), true).overlay == ov
        }),
{
    let hidden = patch_hidden(ov, id, Some(true), true).overlay;
    assert(ov.hidden.push(id)[ov.hidden.len() as int] == id);
    lemma_without_other(hidden.hidden, id, id);
    if !ov.hidden.contains(id) {
        lemma_without_none(ov.hidden, id);
        reveal(Seq::filter);
        assert(ov.hidden.push(id).drop_last() =~= ov.hidden);
        assert(patch_hidden(hidden, id, Some(false), true).overlay =~= ov);
    }
}

// ---- adding and deleting ----

/// A row that the user added, with these fields and nothing else set.
pub open spec fn is_added_row(row: ProviderRow, id: Text, label: Text, base_url: Text, model: Text, wire: Wire, auth: Auth) -> bool {
    &&& row.id@ == id
    &&& row.label@ == label
    &&& row.wire == wire
    &&& row.auth == auth
    &&& row.base_url@ == base_url
    &&& row.model@ == model
    &&& texts(row.models@) == seq![model]
    &&& row.models_url is None
    &&& row.alternates@.len() == 0
    &&& row.key_env@.len() == 0
    &&& row.max_output_tokens is None
    &&& row.betas@.len() == 0
    &&& !row.builtin
}

/// The protocol that a form names; anything but `anthropic` stands for the other one.
pub open spec fn wire_named(name: Text) -> Wire {
    if trimmed(name) == "anthropic"@ {
        Wire::Anthropic
    } else {
        Wire::OpenAi
    }
}

/// The way to send the key that a form names; anything but `x-api-key` stands for the other one.
pub open spec fn auth_named(name: Option<Text>) -> Auth {
    match name {
        Some(n) => if trimmed(n) == "x-api-key"@ {
            Auth::XApiKey
        } else {
            Auth::Bearer
        },
        None => Auth::Bearer,
    }
}

/// Adds a provider of the user's own and gives back its id. `vetted` is the address after its
/// check, or why it was refused.
pub fn chat_provider_add(
    rows: &Vec<ProviderRow>,
    ov: &mut Overlay,
    label: &str,
    vetted: Result<String, String>,
    model: &str,
    wire: &str,
    auth: Option<&str>,
) -> (r: Result<String, String>)
    requires
        rows@.len() + old(ov).added@.len() < usize::MAX - 1,
    ensures
        ({
            let blank = trimmed(label@).len() == 0 || trimmed(model@).len() == 0;
            match r {
                Err(e) => {
                    &&& blank || vetted is Err
                    &&& e@ == if blank { "Label and model are required."@ } else { vetted->Err_0@ }
                    &&& final(ov)@ == old(ov)@
                },
                Ok(id) => {
                    &&& !blank && vetted is Ok
                    &&& is_fresh_id(keys_of(rows@) + keys_of(old(ov)@.added), slug(lowercase(trimmed(label@))), id@)
                    &&& final(ov)@.added.len() == old(ov)@.added.len() + 1
                    &&& final(ov)@.added.drop_last() == old(ov)@.added
                    &&& is_added_row(
                        final(ov)@.added.last(),
                        id@,
                        trimmed(label@),
                        vetted->Ok_0@,
                        trimmed(model@),
                        wire_named(wire@),
                        auth_named(opt_str(auth)),
                    )
                    &&& final(ov)@.model == old(ov)@.model
                    &&& final(ov)@.region == old(ov)@.region
                    &&& final(ov)@.hidden == old(ov)@.hidden
                },
            }
        }),
{
    let label = trim(label);
    let model = trim(model);
    if label.unicode_len() == 0 || model.unicode_len() == 0 {
        return Err("Label and model are required.".to_owned());
    }
    let wire = if same(&trim(wire), "anthropic") {
        Wire::Anthropic
    } else {
        Wire::OpenAi
    };
    let auth = match auth {
        Some(a) => if same(&trim(a), "x-api-key") {
            Auth::XApiKey
        } else {
            Auth::Bearer
        },
        None => Auth::Bearer,
    };
    let base_url = match vetted {
        Ok(u) => u,
        Err(e) => return Err(e),
    };
    let id = mint_added_id(rows, ov, &label);
    let models = vec![model.clone()];
    assert(texts(models@) =~= seq![model@]);
    let row = ProviderRow {
        id: id.clone(),
        label,
        wire,
        auth,
        base_url,
        model,
        models,
        models_url: None,
        alternates: Vec::new(),
        key_env: Vec::new(),
        max_output_tokens: None,
        betas: Vec::new(),
        builtin: false,
    };
    let ghost before = ov.added@;
    ov.added.push(row);
    assert(ov.added@.drop_last() =~= before);
    Ok(id)
}

/// The overlay with nothing left of the added row `id`.
pub open spec fn deleted(ov: OverlayView, id: Text) -> OverlayView {
    OverlayView {
        model: ov.model.remove(id),
        region: ov.region.remove(id),
        hidden: without(ov.hidden, id),
        added: others(ov.added, id),
    }
}

/// Deletes a provider that the user added. A built-in one can only be hidden.
pub fn chat_provider_delete(builtin: &Vec<String>, ov: &mut Overlay, id: &str) -> (r: Result<(), String>)
    ensures
        ({
            let name = trimmed(id@);
            if texts(builtin@).contains(name) {
                error_of(r) == Some("Built-in providers can be hidden, not deleted."@) && final(ov)@ == old(ov)@
            } else if !keys_of(old(ov)@.added).contains(name) {
                error_of(r) == Some("Unknown provider id: "@ + name) && final(ov)@ == old(ov)@
            } else {
                r is Ok && final(ov)@ == deleted(old(ov)@, name)
            }
        }),
{
    let name = trim(id);
    if contains_text(builtin, &name) {
        return Err("Built-in providers can be hidden, not deleted.".to_owned());
    }
    proof { lemma_first_with(ov.added@, name@); }
    if find(&ov.added, &name).is_none() {
        return Err(join2("Unknown provider id: ", &name));
    }
    let mut added: Vec<ProviderRow> = Vec::new();
    std::mem::swap(&mut added, &mut ov.added);
    ov.added = drop_all(added, &name);
    proof {
        lemma_text_remove(ov.model@, name@);
        lemma_text_remove(ov.region@, name@);
    }
    ov.model.remove(&name);
    ov.region.remove(&name);
    ov.hidden = drop_text(&ov.hidden, &name);
    assert(ov@ =~= deleted(old(ov)@, name@));
    Ok(())
}

/// Nothing is left of a provider that was deleted: no row, no model, no address, and it is not
/// hidden.
pub proof fn law_deleted_providers_are_gone(ov: OverlayView, id: Text)
    ensures
        !keys_of(deleted(ov, id).added).contains(id),
        !deleted(ov, id).model.contains_key(id),
        !deleted(ov, id).region.contains_key(id),
        !deleted(ov, id).hidden.contains(id),
{
    lemma_without_other(ov.hidden, id, id);
    lemma_others(ov.added, id);
}

/// A good patch does what it says, all of it: the model is the one that was named, without the blanks
/// around it, the region the one that was chosen, and the provider is hidden or shown.
pub proof fn law_good_patches_are_applied(rows: Seq<ProviderRow>, ov: OverlayView, id: Text, m: Text, r: Text, h: bool)
    requires
        first_with(rows, id) is Some,
        first_with(rows, id)->0.builtin,
        trimmed(m).len() > 0,
        addresses(first_with(rows, id)->0.alternates@).contains(r),
    ensures
        ({
            let after = patched(rows, ov, id, PatchView { model: Some(Some(m)), region: Some(Some(r)), hidden: Some(h) });
            &&& after.error is None
            &&& after.overlay.model.contains_key(id) && after.overlay.model[id] == trimmed(m)
            &&& after.overlay.region.contains_key(id) && after.overlay.region[id] == r
            &&& after.overlay.hidden.contains(id) == h
            &&& after.overlay.added == ov.added
        }),
{
    if h {
        assert(ov.hidden.push(id)[ov.hidden.len() as int] == id);
    } else {
        lemma_without_other(ov.hidden, id, id);
    }
}

/// A patch that names nothing changes nothing, one that takes the model or the region back leaves
/// none on file, and none of this can fail.
pub proof fn law_patches_can_be_taken_back(rows: Seq<ProviderRow>, ov: OverlayView, id: Text)
    requires
        first_with(rows, id) is Some,
    ensures
        patched(rows, ov, id, PatchView { model: None, region: None, hidden: None }) == (Patched { overlay: ov, error: None }),
        ({
            let after = patched(rows, ov, id, PatchView { model: Some(None), region: Some(None), hidden: None });
            &&& after.error is None
            &&& !after.overlay.model.contains_key(id)
            &&& !after.overlay.region.contains_key(id)
            &&& after.overlay.hidden == ov.hidden
        }),
{
}

/// A patch that is refused says what is wrong with it: a provider that is not known, a blank model, a
/// region that is not offered, or the hiding of a provider that can be deleted.
pub proof fn law_refused_patches_say_why(rows: Seq<ProviderRow>, ov: OverlayView, id: Text, patch: PatchView, m: Text, r: Text, h: bool)
    ensures
        first_with(rows, id) is None ==> patched(rows, ov, id, patch) == (Patched {
            overlay: ov,
            error: Some("Unknown provider id: "@ + id),
        }),
        first_with(rows, id) is Some && patch.model == Some(Some(m)) && trimmed(m).len() == 0 ==> patched(rows, ov, id, patch) == (Patched {
            overlay: ov,
            error: Some("Model must be a non-empty string."@),
        }),
        first_with(rows, id) is Some && patch.model is None && patch.region == Some(Some(r)) && !addresses(
            first_with(rows, id)->0.alternates@,
        ).contains(r) ==> patched(rows, ov, id, patch) == (Patched {
            overlay: ov,
            error: Some("That region is not available for this provider."@),
        }),
        first_with(rows, id) is Some && !first_with(rows, id)->0.builtin && patch == (PatchView { model: None, region: None, hidden: Some(h) })
            ==> patched(rows, ov, id, patch) == (Patched {
            overlay: ov,
            error: Some("User-added providers can be deleted, not hidden."@),
        }),
{
}

/// The wire and the way of signing in are those that were named, with blanks around the name or not,
/// and the common ones for any other name.
pub proof fn law_names_choose_wire_and_auth(name: Text)
    ensures
        trimmed(name) == "anthropic"@ ==> wire_named(name) is Anthropic,
        trimmed(name) != "anthropic"@ ==> wire_named(name) is OpenAi,
        trimmed(name) == "x-api-key"@ ==> auth_named(Some(name)) is XApiKey,
        trimmed(name) != "x-api-key"@ ==> auth_named(Some(name)) is Bearer,
        auth_named(None) is Bearer,
{
}

/// A provider that was added is the one that was described, with its one model, and can be deleted.
pub proof fn law_added_rows_are_as_described(row: ProviderRow, id: Text, label: Text, base_url: Text, model: Text, wire: Wire, auth: Auth)
    requires
        is_added_row(row, id, label, base_url, model, wire, auth),
    ensures
        row.id@ == id,
        row.label@ == label,
        row.base_url@ == base_url,
        row.model@ == model,
        row.models@.len() == 1 && row.models@[0]@ == model,
        row.wire == wire,
        row.auth == auth,
        !row.builtin,
        row.alternates@.len() == 0 && row.key_env@.len() == 0 && row.betas@.len() == 0,
{
    assert(texts(row.models@).len() == 1);
    assert(texts(row.models@)[0] == row.models@[0]@);
}

/// Deleting a provider takes that one away and leaves every other as it was.
pub proof fn law_deleting_leaves_the_others(ov: OverlayView, id: Text, other: Text, row: ProviderRow)
    requires
        other != id,
    ensures
        ({
            let after = deleted(ov, id);
            &&& after.model.contains_key(other) == ov.model.contains_key(other)
            &&& ov.model.contains_key(other) ==> after.model[other] == ov.model[other]
            &&& after.region.contains_key(other) == ov.region.contains_key(other)
            &&& ov.region.contains_key(other) ==> after.region[other] == ov.region[other]
            &&& after.hidden.contains(other) == ov.hidden.contains(other)
            &&& row.id@ == other ==> after.added.contains(row) == ov.added.contains(row)
        }),
{
    lemma_without_other(ov.hidden, id, other);
    lemma_others(ov.added, id);
}

}
