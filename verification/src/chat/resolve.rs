//! Which provider the assistant talks to, and what is shown of all of them. The stored pick
//! decides; keys and environment only say whether the pick can be used.

use vstd::prelude::*;
use vstd::string::*;

use crate::chat::egress::{agent_egress, reach, url_host};
use crate::chat::keys::{first_usable, ladder, usable, KeyOrigin, Keys, KeysView, OriginView};
use crate::chat::overlay::addresses;
use crate::chat::registry::{Alternate, Auth, ProviderRow, Wire};
use crate::flow::graph::Text;
use crate::json::{as_text, Json, JsonView};
use crate::records::{find, first_with, keys_of, lemma_first_with, Record};
use crate::strmap::{text_map, StrMap};
use crate::text::{
    begins, copy_texts, ends, join, join2, join3, joined, law_beginnings_and_ends, opt_text, same, texts, trim, trimmed,
};

verus! {

/// A provider that is ready to be talked to.
pub struct ResolvedProvider {
    pub id: String,
    pub label: String,
    pub wire: Wire,
    pub auth: Auth,
    pub base_url: String,
    pub model: String,
    pub key: String,
    pub key_origin: KeyOrigin,
    pub max_output_tokens: Option<u64>,
    pub betas: Vec<String>,
}

pub enum Resolution {
    Ready(ResolvedProvider),
    NoneChosen,
    Unknown { id: String },
    NoKey { label: String, key_env: Vec<String> },
}

pub struct ResolvedView {
    pub id: Text,
    pub label: Text,
    pub wire: Wire,
    pub auth: Auth,
    pub base_url: Text,
    pub model: Text,
    pub key: Text,
    pub key_origin: OriginView,
    pub max_output_tokens: Option<u64>,
    pub betas: Seq<Text>,
}

pub enum ResolutionView {
    Ready(ResolvedView),
    NoneChosen,
    Unknown { id: Text },
    NoKey { label: Text, key_env: Seq<Text> },
}

impl View for ResolvedProvider {
    type V = ResolvedView;

    open spec fn view(&self) -> ResolvedView {
        ResolvedView {
            id: self.id@,
            label: self.label@,
            wire: self.wire,
            auth: self.auth,
            base_url: self.base_url@,
            model: self.model@,
            key: self.key@,
            key_origin: self.key_origin@,
            max_output_tokens: self.max_output_tokens,
            betas: texts(self.betas@),
        }
    }
}

impl View for Resolution {
    type V = ResolutionView;

    open spec fn view(&self) -> ResolutionView {
        match self {
            Resolution::Ready(p) => ResolutionView::Ready(p@),
            Resolution::NoneChosen => ResolutionView::NoneChosen,
            Resolution::Unknown { id } => ResolutionView::Unknown { id: id@ },
            Resolution::NoKey { label, key_env } => ResolutionView::NoKey { label: label@, key_env: texts(key_env@) },
        }
    }
}

/// The pick that is stored: a string that is not blank, without the blanks around it.
pub open spec fn pick(stored: JsonView) -> Option<Text> {
    match as_text(stored) {
        Some(s) => if trimmed(s).len() > 0 {
            Some(trimmed(s))
        } else {
            None
        },
        None => None,
    }
}

/// The pick that is stored.
pub fn stored_pick(stored: &Json) -> (r: Option<String>)
    ensures
        opt_text(r) == pick(stored.model()),
{
    match stored {
        Json::Text(s) => {
            let name = trim(s);
            if name.unicode_len() == 0 {
                None
            } else {
                Some(name)
            }
        },
        _ => None,
    }
}

/// What the pick comes to.
pub open spec fn resolution(rows: Seq<ProviderRow>, stored: Option<Text>, keys: KeysView) -> ResolutionView {
    match stored {
        None => ResolutionView::NoneChosen,
        Some(id) => match first_with(rows, id) {
            None => ResolutionView::Unknown { id },
            Some(row) => match ladder(keys, row.id@, texts(row.key_env@)) {
                None => ResolutionView::NoKey { label: row.label@, key_env: texts(row.key_env@) },
                Some((key, origin)) => ResolutionView::Ready(
                    ResolvedView {
                        id: row.id@,
                        label: row.label@,
                        wire: row.wire,
                        auth: row.auth,
                        base_url: row.base_url@,
                        model: row.model@,
                        key,
                        key_origin: origin,
                        max_output_tokens: row.max_output_tokens,
                        betas: texts(row.betas@),
                    },
                ),
            },
        },
    }
}

/// What the stored pick comes to.
pub fn resolve(rows: &Vec<ProviderRow>, stored: &Option<String>, keys: &Keys) -> (r: Resolution)
    ensures
        r@ == resolution(rows@, opt_text(*stored), keys@),
{
    let id = match stored {
        Some(id) => id,
        None => return Resolution::NoneChosen,
    };
    let row = match find(rows, id) {
        Some(row) => row,
        None => return Resolution::Unknown { id: id.clone() },
    };
    match keys.key_for(row) {
        None => Resolution::NoKey { label: row.label.clone(), key_env: copy_texts(&row.key_env) },
        Some((key, key_origin)) => Resolution::Ready(
            ResolvedProvider {
                id: row.id.clone(),
                label: row.label.clone(),
                wire: row.wire,
                auth: row.auth,
                base_url: row.base_url.clone(),
                model: row.model.clone(),
                key,
                key_origin,
                max_output_tokens: row.max_output_tokens,
                betas: copy_texts(&row.betas),
            },
        ),
    }
}

/// No key and no variable ever selects a provider: without a pick there is none, and with one it
/// is the provider of that id or nothing.
pub proof fn law_only_the_pick_selects(rows: Seq<ProviderRow>, stored: Option<Text>, keys: KeysView)
    ensures
        stored is None ==> resolution(rows, stored, keys) is NoneChosen,
        resolution(rows, stored, keys) matches ResolutionView::Ready(p) ==> stored == Some(p.id),
{
    if stored is Some {
        lemma_first_with(rows, stored->0);
    }
}

// ---- what is told of a pick that cannot be used ----

pub open spec fn env_hint(names: Seq<Text>) -> Text {
    if names.len() == 0 {
        Seq::empty()
    } else {
        " (or set "@ + joined(names, " / "@) + " in your shell and restart)"@
    }
}

pub open spec fn no_key_text(label: Text, names: Seq<Text>) -> Text {
    label + " needs a key — paste one in \u{2318}, \u{2192} Assistant"@ + (env_hint(names) + "."@)
}

fn no_key_message(label: &str, names: &Vec<String>) -> (r: String)
    ensures
        r@ == no_key_text(label@, texts(names@)),
{
    let hint = if names.len() == 0 {
        String::new()
    } else {
        let list = join(names, " / ");
        join3(" (or set ", &list, " in your shell and restart)")
    };
    let end = join2(&hint, ".");
    join3(label, " needs a key — paste one in \u{2318}, \u{2192} Assistant", &end)
}

/// Why nothing is ready, as the list of providers says it.
pub open spec fn list_reason(v: ResolutionView) -> Option<Text> {
    match v {
        ResolutionView::Ready(_) => None,
        ResolutionView::NoneChosen => Some("No provider chosen — pick one and paste a key."@),
        ResolutionView::Unknown { id } => Some("The provider you saved ("@ + id + ") is no longer in your list."@),
        ResolutionView::NoKey { label, key_env } => Some(no_key_text(label, key_env)),
    }
}

/// Why nothing is ready, as a talk that cannot start is told.
pub open spec fn talk_reason(v: ResolutionView) -> Option<Text> {
    match v {
        ResolutionView::Ready(_) => None,
        ResolutionView::NoneChosen => Some("No provider chosen — pick one in \u{2318}, \u{2192} Assistant and paste a key."@),
        ResolutionView::Unknown { id } => Some(
            "The provider you saved ("@ + id + ") is no longer in your list — pick another in \u{2318}, \u{2192} Assistant."@,
        ),
        ResolutionView::NoKey { label, key_env } => Some(no_key_text(label, key_env)),
    }
}

/// A provider with the extras that a talk with it asks for.
pub struct Talk {
    pub provider: ResolvedProvider,
    pub betas: Option<Vec<String>>,
    pub fallbacks: Option<String>,
}

/// The provider to talk to, or why there is none. Betas and the fallback go together: both where
/// the provider has betas, neither where it has none.
pub fn resolve_chat(rows: &Vec<ProviderRow>, stored: &Json, keys: &Keys) -> (r: Result<Talk, String>)
    ensures
        ({
            let v = resolution(rows@, pick(stored.model()), keys@);
            match r {
                Err(e) => talk_reason(v) == Some(e@),
                Ok(t) => {
                    &&& v == ResolutionView::Ready(t.provider@)
                    &&& t.betas is Some <==> t.provider@.betas.len() > 0
                    &&& t.betas matches Some(b) ==> texts(b@) == t.provider@.betas
                    &&& opt_text(t.fallbacks) == if t.provider@.betas.len() > 0 { Some("default"@) } else { None }
                },
            }
        }),
{
    let chosen = stored_pick(stored);
    match resolve(rows, &chosen, keys) {
        Resolution::NoneChosen => Err("No provider chosen — pick one in \u{2318}, \u{2192} Assistant and paste a key.".to_owned()),
        Resolution::Unknown { id } => Err(
            join3("The provider you saved (", &id, ") is no longer in your list — pick another in \u{2318}, \u{2192} Assistant."),
        ),
        Resolution::NoKey { label, key_env } => Err(no_key_message(&label, &key_env)),
        Resolution::Ready(provider) => {
            if provider.betas.len() == 0 {
                Ok(Talk { provider, betas: None, fallbacks: None })
            } else {
                let betas = copy_texts(&provider.betas);
                Ok(Talk { provider, betas: Some(betas), fallbacks: Some("default".to_owned()) })
            }
        },
    }
}

// ---- the list of providers ----

/// One provider as it is shown. Where its key was found is told, the key never.
pub struct ProviderEntry {
    pub id: String,
    pub label: String,
    pub model: String,
    pub models: Vec<String>,
    pub base_url: String,
    pub alternates: Vec<String>,
    pub key_origin: Option<KeyOrigin>,
    pub active: bool,
    pub agent_egress: String,
    pub last_error: Option<String>,
    pub builtin: bool,
}

/// The provider that a talk would go to.
pub struct Effective {
    pub id: String,
    pub label: String,
    pub model: String,
    pub host: String,
    pub key_origin: KeyOrigin,
}

pub struct ProviderList {
    pub providers: Vec<ProviderEntry>,
    pub active: Option<String>,
    pub effective: Option<Effective>,
    pub reason: Option<String>,
}

pub open spec fn origin_of(found: Option<(Text, OriginView)>) -> Option<OriginView> {
    match found {
        Some((_, o)) => Some(o),
        None => None,
    }
}

pub open spec fn opt_origin(o: Option<KeyOrigin>) -> Option<OriginView> {
    match o {
        Some(k) => Some(k@),
        None => None,
    }
}

pub open spec fn last_error_of(errors: Map<Text, Text>, id: Text) -> Option<Text> {
    if errors.contains_key(id) {
        Some(errors[id])
    } else {
        None
    }
}

/// `e` shows `row`.
pub open spec fn shows(e: ProviderEntry, row: ProviderRow, keys: KeysView, stored: Option<Text>, listed: bool, errors: Map<Text, Text>) -> bool {
    &&& e.id@ == row.id@
    &&& e.label@ == row.label@
    &&& e.model@ == row.model@
    &&& texts(e.models@) == texts(row.models@)
    &&& e.base_url@ == row.base_url@
    &&& texts(e.alternates@) == addresses(row.alternates@)
    &&& opt_origin(e.key_origin) == origin_of(ladder(keys, row.id@, texts(row.key_env@)))
    &&& e.active == (stored == Some(row.id@))
    &&& e.agent_egress@ == reach(url_host(row.base_url@) is Some, listed)
    &&& opt_text(e.last_error) == last_error_of(errors, row.id@)
    &&& e.builtin == row.builtin
}

/// `e` shows the provider that is ready.
pub open spec fn shows_ready(e: Option<Effective>, v: ResolutionView) -> bool {
    match v {
        ResolutionView::Ready(p) => (e matches Some(x) && x.id@ == p.id && x.label@ == p.label && x.model@ == p.model && x.host@ == p.base_url
            && x.key_origin@ == p.key_origin),
        _ => e is None,
    }
}

fn copy_addresses(v: &Vec<Alternate>) -> (r: Vec<String>)
    ensures
        texts(r@) == addresses(v@),
{
    let mut out: Vec<String> = Vec::new();
    let mut i: usize = 0;
    while i < v.len()
        invariant
            i <= v@.len(),
            out@.len() == i,
            forall|j: int| 0 <= j < i ==> (#[trigger] out@[j])@ == v@[j].base_url@,
        decreases v@.len() - i,
    {
        out.push(v[i].base_url.clone());
        i += 1;
    }
    assert(texts(out@) =~= addresses(v@));
    out
}

fn provider_entry(row: &ProviderRow, keys: &Keys, stored: &Option<String>, listed: bool, errors: &StrMap<String>) -> (r: ProviderEntry)
    ensures
        shows(r, *row, keys@, opt_text(*stored), listed, text_map(errors@)),
{
    let key_origin = match keys.key_for(row) {
        Some((_, o)) => Some(o),
        None => None,
    };
    let active = match stored {
        Some(s) => same(s, &row.id),
        None => false,
    };
    let last_error = match errors.get(&row.id) {
        Some(e) => Some(e.clone()),
        None => None,
    };
    ProviderEntry {
        id: row.id.clone(),
        label: row.label.clone(),
        model: row.model.clone(),
        models: copy_texts(&row.models),
        base_url: row.base_url.clone(),
        alternates: copy_addresses(&row.alternates),
        key_origin,
        active,
        agent_egress: agent_egress(&row.base_url, listed),
        last_error,
        builtin: row.builtin,
    }
}

/// The providers as they are shown: every one of them, the pick, and the one that a talk would go
/// to or why there is none. `listed` says of each provider whether panes may reach its host.
pub fn chat_providers(rows: &Vec<ProviderRow>, stored: &Json, keys: &Keys, listed: &Vec<bool>, errors: &StrMap<String>) -> (r: ProviderList)
    requires
        listed@.len() == rows@.len(),
    ensures
        r.providers@.len() == rows@.len(),
        forall|i: int|
            0 <= i < rows@.len() ==> shows(#[trigger] r.providers@[i], rows@[i], keys@, pick(stored.model()), listed@[i], text_map(errors@)),
        opt_text(r.active) == pick(stored.model()),
        shows_ready(r.effective, resolution(rows@, pick(stored.model()), keys@)),
        opt_text(r.reason) == list_reason(resolution(rows@, pick(stored.model()), keys@)),
{
    let chosen = stored_pick(stored);
    let mut providers: Vec<ProviderEntry> = Vec::new();
    let mut i: usize = 0;
    while i < rows.len()
        invariant
            i <= rows@.len(),
            providers@.len() == i,
            listed@.len() == rows@.len(),
            opt_text(chosen) == pick(stored.model()),
            forall|j: int|
                0 <= j < i ==> shows(#[trigger] providers@[j], rows@[j], keys@, pick(stored.model()), listed@[j], text_map(errors@)),
        decreases rows@.len() - i,
    {
        providers.push(provider_entry(&rows[i], keys, &chosen, listed[i], errors));
        i += 1;
    }
    let (effective, reason) = match resolve(rows, &chosen, keys) {
        Resolution::Ready(p) => (
            Some(Effective { id: p.id, label: p.label, model: p.model, host: p.base_url, key_origin: p.key_origin }),
            None,
        ),
        Resolution::NoneChosen => (None, Some("No provider chosen — pick one and paste a key.".to_owned())),
        Resolution::Unknown { id } => (None, Some(join3("The provider you saved (", &id, ") is no longer in your list."))),
        Resolution::NoKey { label, key_env } => (None, Some(no_key_message(&label, &key_env))),
    };
    ProviderList { providers, active: chosen, effective, reason }
}

/// Either a provider is ready or a reason is given, never both and never neither.
pub proof fn law_a_reason_or_a_provider(v: ResolutionView)
    ensures
        list_reason(v) is None <==> v is Ready,
        talk_reason(v) is None <==> v is Ready,
{
}

/// The same keys are there in both, whatever they are.
pub open spec fn same_places(a: KeysView, b: KeysView) -> bool {
    &&& a.kind == b.kind
    &&& forall|x: Text| #[trigger] usable(a.vault, x) <==> usable(b.vault, x)
    &&& forall|x: Text| #[trigger] usable(a.secrets, x) <==> usable(b.secrets, x)
    &&& forall|x: Text| #[trigger] usable(a.env, x) <==> usable(b.env, x)
}

proof fn lemma_same_first(a: Map<Text, Text>, b: Map<Text, Text>, names: Seq<Text>)
    requires
        forall|x: Text| #[trigger] usable(a, x) <==> usable(b, x),
    ensures
        first_usable(a, names) == first_usable(b, names),
    decreases names.len(),
{
    if names.len() > 0 {
        lemma_same_first(a, b, names.drop_first());
    }
}

/// No key is ever shown: the list of providers, the one that is ready and the reason where none is
/// are the same for any other keys in the same places.
pub proof fn law_keys_are_never_shown(
    e: ProviderEntry,
    ready: Option<Effective>,
    rows: Seq<ProviderRow>,
    i: int,
    a: KeysView,
    b: KeysView,
    stored: Option<Text>,
    listed: bool,
    errors: Map<Text, Text>,
)
    requires
        same_places(a, b),
        0 <= i < rows.len(),
    ensures
        shows(e, rows[i], a, stored, listed, errors) <==> shows(e, rows[i], b, stored, listed, errors),
        shows_ready(ready, resolution(rows, stored, a)) <==> shows_ready(ready, resolution(rows, stored, b)),
        list_reason(resolution(rows, stored, a)) == list_reason(resolution(rows, stored, b)),
        talk_reason(resolution(rows, stored, a)) == talk_reason(resolution(rows, stored, b)),
{
    lemma_same_first(a.secrets, b.secrets, texts(rows[i].key_env@));
    lemma_same_first(a.env, b.env, texts(rows[i].key_env@));
    assert(usable(a.vault, rows[i].id@) <==> usable(b.vault, rows[i].id@));
    if stored is Some && first_with(rows, stored->0) is Some {
        let row = first_with(rows, stored->0)->0;
        lemma_same_first(a.secrets, b.secrets, texts(row.key_env@));
        lemma_same_first(a.env, b.env, texts(row.key_env@));
        assert(usable(a.vault, row.id@) <==> usable(b.vault, row.id@));
    }
}

/// A provider that is ready carries the settings of its own row, and of no other: the first row
/// with the id that was picked, whose address, model, label and the rest it has unchanged.
pub proof fn law_ready_providers_carry_their_row(rows: Seq<ProviderRow>, stored: Option<Text>, keys: KeysView, p: ResolvedProvider, i: int)
    requires
        ResolutionView::Ready(p@) == resolution(rows, stored, keys),
        0 <= i < rows.len(),
        stored == Some(rows[i].id@),
        forall|j: int| 0 <= j < i ==> (#[trigger] rows[j]).id@ != rows[i].id@,
    ensures
        p.id@ == rows[i].id@,
        p.label@ == rows[i].label@,
        p.wire == rows[i].wire,
        p.auth == rows[i].auth,
        p.base_url@ == rows[i].base_url@,
        p.model@ == rows[i].model@,
        p.max_output_tokens == rows[i].max_output_tokens,
        texts(p.betas@) == texts(rows[i].betas@),
        Some((p.key@, p.key_origin@)) == ladder(keys, rows[i].id@, texts(rows[i].key_env@)),
{
    lemma_first_is(rows, i);
}

proof fn lemma_first_is(rows: Seq<ProviderRow>, i: int)
    requires
        0 <= i < rows.len(),
        forall|j: int| 0 <= j < i ==> (#[trigger] rows[j]).id@ != rows[i].id@,
    ensures
        first_with(rows, rows[i].id@) == Some(rows[i]),
    decreases rows.len(),
{
    if i > 0 {
        assert(rows[0].key() != rows[i].id@);
        let rest = rows.drop_first();
        assert forall|j: int| 0 <= j < i - 1 implies (#[trigger] rest[j]).id@ != rest[i - 1].id@ by {
            assert(rows[j + 1].id@ != rows[i].id@);
        }
        lemma_first_is(rest, i - 1);
    }
}

/// What the pick comes to is settled by the rows and the keys alone: a row of that id with a key
/// is ready, one without a key asks for it under its own label and variables, and an id that no
/// row has is unknown.
pub proof fn law_every_pick_is_answered(rows: Seq<ProviderRow>, id: Text, keys: KeysView, i: int)
    requires
        0 <= i < rows.len() ==> rows[i].id@ == id && forall|j: int| 0 <= j < i ==> (#[trigger] rows[j]).id@ != id,
        !(0 <= i < rows.len()) ==> forall|j: int| 0 <= j < rows.len() ==> (#[trigger] rows[j]).id@ != id,
    ensures
        ({
            let v = resolution(rows, Some(id), keys);
            if 0 <= i < rows.len() {
                if ladder(keys, id, texts(rows[i].key_env@)) is Some {
                    v is Ready
                } else {
                    v matches ResolutionView::NoKey { label, key_env } && label == rows[i].label@ && key_env == texts(rows[i].key_env@)
                }
            } else {
                v matches ResolutionView::Unknown { id: told } && told == id
            }
        }),
{
    if 0 <= i < rows.len() {
        lemma_first_is(rows, i);
    } else {
        lemma_first_with(rows, id);
        if keys_of(rows).contains(id) {
            let j = choose|j: int| 0 <= j < keys_of(rows).len() && keys_of(rows)[j] == id;
            assert(rows[j].id@ != id);
        }
    }
}

/// The list shows every provider as its row has it, marks the pick and no other, and says of the
/// one that a talk would go to what that talk would use.
pub proof fn law_the_list_shows_the_rows(
    e: ProviderEntry,
    ready: Option<Effective>,
    row: ProviderRow,
    keys: KeysView,
    stored: Option<Text>,
    listed: bool,
    errors: Map<Text, Text>,
    p: ResolvedProvider,
)
    requires
        shows(e, row, keys, stored, listed, errors),
        shows_ready(ready, ResolutionView::Ready(p@)),
    ensures
        e.id@ == row.id@,
        e.label@ == row.label@,
        e.model@ == row.model@,
        texts(e.models@) == texts(row.models@),
        e.base_url@ == row.base_url@,
        e.builtin == row.builtin,
        e.alternates@.len() == row.alternates@.len(),
        forall|k: int| 0 <= k < row.alternates@.len() ==> (#[trigger] e.alternates@[k])@ == row.alternates@[k].base_url@,
        e.active <==> stored == Some(row.id@),
        e.key_origin is Some <==> ladder(keys, row.id@, texts(row.key_env@)) is Some,
        e.last_error is Some <==> errors.contains_key(row.id@),
        e.last_error matches Some(told) ==> told@ == errors[row.id@],
        ready is Some,
        ready->0.id@ == p.id@,
        ready->0.label@ == p.label@,
        ready->0.model@ == p.model@,
        ready->0.host@ == p.base_url@,
        ready->0.key_origin@ == p.key_origin@,
{
    assert(texts(e.alternates@).len() == e.alternates@.len());
    assert forall|k: int| 0 <= k < row.alternates@.len() implies (#[trigger] e.alternates@[k])@ == row.alternates@[k].base_url@ by {
        assert(texts(e.alternates@)[k] == addresses(row.alternates@)[k]);
    }
}

/// What is picked is what was stored, without the blanks around it: nothing but a string that
/// holds more than blanks is a pick.
pub proof fn law_the_pick_is_what_was_stored(s: Text, other: JsonView)
    ensures
        pick(JsonView::Text(s)) is Some <==> trimmed(s).len() > 0,
        pick(JsonView::Text(s)) matches Some(id) ==> id == trimmed(s),
        !(other is Text) ==> pick(other) is None,
{
}

/// Why nobody can answer is said in full: the provider that is gone by its id, the one without a key
/// by its label, with the variables that could hold one.
pub proof fn law_reasons_name_the_provider(id: Text, label: Text, names: Seq<Text>)
    ensures
        list_reason(ResolutionView::Unknown { id }) == Some("The provider you saved ("@ + id + ") is no longer in your list."@),
        talk_reason(ResolutionView::Unknown { id }) is Some && begins(
            talk_reason(ResolutionView::Unknown { id })->0,
            "The provider you saved ("@ + id + ") is no longer in your list"@,
        ),
        list_reason(ResolutionView::NoKey { label, key_env: names }) == talk_reason(ResolutionView::NoKey { label, key_env: names }),
        list_reason(ResolutionView::NoKey { label, key_env: names }) is Some,
        begins(list_reason(ResolutionView::NoKey { label, key_env: names })->0, label + " needs a key"@),
        names.len() > 0 ==> ends(
            list_reason(ResolutionView::NoKey { label, key_env: names })->0,
            " (or set "@ + joined(names, " / "@) + " in your shell and restart)."@,
        ),
        list_reason(ResolutionView::NoneChosen) == Some("No provider chosen — pick one and paste a key."@),
        talk_reason(ResolutionView::NoneChosen) is Some,
{
    reveal_strlit("The provider you saved (");
    reveal_strlit(") is no longer in your list");
    reveal_strlit(") is no longer in your list — pick another in \u{2318}, \u{2192} Assistant.");
    reveal_strlit(" needs a key");
    reveal_strlit(" needs a key — paste one in \u{2318}, \u{2192} Assistant");
    reveal_strlit(".");
    reveal_strlit(" in your shell and restart)");
    reveal_strlit(" in your shell and restart).");
    let gone = "The provider you saved ("@ + id + ") is no longer in your list"@;
    let told = talk_reason(ResolutionView::Unknown { id })->0;
    assert(told.take(gone.len() as int) =~= gone);
    let why = no_key_text(label, names);
    let front = label + " needs a key"@;
    assert(why.take(front.len() as int) =~= front);
    if names.len() > 0 {
        let hint = " (or set "@ + joined(names, " / "@) + " in your shell and restart)."@;
        assert(env_hint(names) + "."@ =~= hint);
        law_beginnings_and_ends(label + " needs a key — paste one in \u{2318}, \u{2192} Assistant"@, hint);
    }
}

}
