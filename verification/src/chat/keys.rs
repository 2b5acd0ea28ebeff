//! Where a provider's key comes from: the vault first, then the variables that the provider
//! names, in the login shell's secrets and then in the environment. A blank key is no key.

use vstd::prelude::*;
use vstd::string::*;

use crate::chat::registry::ProviderRow;
use crate::flow::graph::Text;
use crate::strmap::{lemma_text_insert, lemma_text_remove, text_map, StrMap};
use crate::text::{law_trimming_twice_is_trimming_once, texts, trim, trimmed};

verus! {

/// Where the vault's keys are kept.
#[derive(PartialEq, Eq, Structural, Clone, Copy, Debug)]
pub enum Kind {
    Keychain,
    File,
}

/// Where a key was found; for a variable, its name. Never the key itself.
#[derive(PartialEq, Eq, Clone, Debug)]
pub enum KeyOrigin {
    Keychain,
    File,
    Shell(String),
    Env(String),
}

pub enum OriginView {
    Keychain,
    File,
    Shell(Text),
    Env(Text),
}

impl View for KeyOrigin {
    type V = OriginView;

    open spec fn view(&self) -> OriginView {
        match self {
            KeyOrigin::Keychain => OriginView::Keychain,
            KeyOrigin::File => OriginView::File,
            KeyOrigin::Shell(n) => OriginView::Shell(n@),
            KeyOrigin::Env(n) => OriginView::Env(n@),
        }
    }
}

/// Whether `s` holds anything but blanks.
pub open spec fn filled(s: Text) -> bool {
    trimmed(s).len() > 0
}

/// `s` itself, where it holds anything but blanks.
pub fn truthy(s: &str) -> (r: Option<String>)
    ensures
        match r {
            Some(t) => filled(s@) && t@ == s@,
            None => !filled(s@),
        },
{
    if trim(s).unicode_len() == 0 {
        None
    } else {
        Some(s.to_owned())
    }
}

/// A usable value under `key`.
pub open spec fn usable(m: Map<Text, Text>, key: Text) -> bool {
    m.contains_key(key) && filled(m[key])
}

/// The first of the names that has a usable value.
pub open spec fn first_usable(m: Map<Text, Text>, names: Seq<Text>) -> Option<Text>
    decreases names.len(),
{
    if names.len() == 0 {
        None
    } else if usable(m, names[0]) {
        Some(names[0])
    } else {
        first_usable(m, names.drop_first())
    }
}

/// The keys at hand.
pub struct Keys<'a> {
    pub vault_keys: &'a StrMap<String>,
    pub kind: Kind,
    pub secrets: &'a StrMap<String>,
    pub env: &'a StrMap<String>,
}

pub struct KeysView {
    pub vault: Map<Text, Text>,
    pub kind: Kind,
    pub secrets: Map<Text, Text>,
    pub env: Map<Text, Text>,
}

impl<'a> View for Keys<'a> {
    type V = KeysView;

    open spec fn view(&self) -> KeysView {
        KeysView {
            vault: text_map(self.vault_keys@),
            kind: self.kind,
            secrets: text_map(self.secrets@),
            env: text_map(self.env@),
        }
    }
}

/// The key of the provider `id` whose key may be in the variables `names`, and where it is from.
pub open spec fn ladder(k: KeysView, id: Text, names: Seq<Text>) -> Option<(Text, OriginView)> {
    if usable(k.vault, id) {
        Some((k.vault[id], match k.kind {
            Kind::Keychain => OriginView::Keychain,
            Kind::File => OriginView::File,
        }))
    } else {
        match first_usable(k.secrets, names) {
            Some(n) => Some((k.secrets[n], OriginView::Shell(n))),
            None => match first_usable(k.env, names) {
                Some(n) => Some((k.env[n], OriginView::Env(n))),
                None => None,
            },
        }
    }
}

pub open spec fn found_view(r: Option<(String, KeyOrigin)>) -> Option<(Text, OriginView)> {
    match r {
        Some((k, o)) => Some((k@, o@)),
        None => None,
    }
}

fn usable_value(m: &StrMap<String>, key: &str) -> (r: Option<String>)
    ensures
        match r {
            Some(v) => usable(text_map(m@), key@) && v@ == text_map(m@)[key@],
            None => !usable(text_map(m@), key@),
        },
{
    match m.get(key) {
        Some(v) => truthy(v),
        None => None,
    }
}

fn first_named(m: &StrMap<String>, names: &Vec<String>) -> (r: Option<(String, String)>)
    ensures
        match r {
            Some((n, v)) => first_usable(text_map(m@), texts(names@)) == Some(n@) && v@ == text_map(m@)[n@],
            None => first_usable(text_map(m@), texts(names@)) is None,
        },
{
    let ghost all = texts(names@);
    let mut i: usize = 0;
    assert(all.skip(0) =~= all);
    while i < names.len()
        invariant
            i <= names@.len(),
            all == texts(names@),
            first_usable(text_map(m@), all) == first_usable(text_map(m@), all.skip(i as int)),
        decreases names@.len() - i,
    {
        assert(all.skip(i as int)[0] == names@[i as int]@);
        if let Some(v) = usable_value(m, &names[i]) {
            return Some((names[i].clone(), v));
        }
        assert(all.skip(i as int).drop_first() =~= all.skip(i + 1));
        i += 1;
    }
    None
}

impl<'a> Keys<'a> {
    /// The key for a provider, and where it is from.
    pub fn key_for(&self, row: &ProviderRow) -> (r: Option<(String, KeyOrigin)>)
        ensures
            found_view(r) == ladder(self@, row.id@, texts(row.key_env@)),
    {
        if let Some(k) = usable_value(self.vault_keys, &row.id) {
            let origin = match self.kind {
                Kind::Keychain => KeyOrigin::Keychain,
                Kind::File => KeyOrigin::File,
            };
            return Some((k, origin));
        }
        if let Some((n, v)) = first_named(self.secrets, &row.key_env) {
            return Some((v, KeyOrigin::Shell(n)));
        }
        if let Some((n, v)) = first_named(self.env, &row.key_env) {
            return Some((v, KeyOrigin::Env(n)));
        }
        None
    }
}

/// A key that is found is never blank.
pub proof fn law_keys_are_never_blank(k: KeysView, id: Text, names: Seq<Text>)
    ensures
        ladder(k, id, names) matches Some((key, _)) ==> filled(key),
{
    lemma_first_usable(k.secrets, names);
    lemma_first_usable(k.env, names);
}

proof fn lemma_first_usable(m: Map<Text, Text>, names: Seq<Text>)
    ensures
        first_usable(m, names) matches Some(n) ==> usable(m, n) && names.contains(n),
    decreases names.len(),
{
    if names.len() > 0 {
        if usable(m, names[0]) {
            assert(names.contains(names[0]));
        } else {
            lemma_first_usable(m, names.drop_first());
            if first_usable(m, names.drop_first()) is Some {
                let n = first_usable(m, names.drop_first())->0;
                let i = choose|i: int| 0 <= i < names.drop_first().len() && names.drop_first()[i] == n;
                assert(names[i + 1] == n);
            }
        }
    }
}

/// A key in the environment is taken from a variable that the provider names, never from another.
pub proof fn law_only_named_variables_hold_keys(k: KeysView, id: Text, names: Seq<Text>)
    ensures
        ladder(k, id, names) matches Some((_, OriginView::Shell(n))) ==> names.contains(n),
        ladder(k, id, names) matches Some((_, OriginView::Env(n))) ==> names.contains(n),
{
    lemma_first_usable(k.secrets, names);
    lemma_first_usable(k.env, names);
}

/// A key in the vault is preferred to every variable.
pub proof fn law_the_vault_comes_first(k: KeysView, id: Text, names: Seq<Text>, secrets: Map<Text, Text>, env: Map<Text, Text>)
    requires
        usable(k.vault, id),
    ensures
        ladder(k, id, names) == ladder(KeysView { secrets, env, ..k }, id, names),
{
}

// ---- storing a key ----

/// The vault with `key` for `id`; a blank one takes out what was there.
pub open spec fn stored(vault: Map<Text, Text>, id: Text, key: Text) -> Map<Text, Text> {
    if filled(key) {
        vault.insert(id, trimmed(key))
    } else {
        vault.remove(id)
    }
}

/// Stores a key for the provider `id`, both without the blanks around them.
pub fn chat_key_set(vault: &mut StrMap<String>, id: &str, key: &str) -> (r: Result<(), String>)
    ensures
        match r {
            Err(e) => trimmed(id@).len() == 0 && e@ == "A provider id is required."@ && final(vault)@ == old(vault)@,
            Ok(_) => trimmed(id@).len() > 0 && text_map(final(vault)@) == stored(text_map(old(vault)@), trimmed(id@), key@),
        },
{
    let name = trim(id);
    if name.unicode_len() == 0 {
        return Err("A provider id is required.".to_owned());
    }
    let value = trim(key);
    if value.unicode_len() == 0 {
        proof { lemma_text_remove(vault@, name@); }
        vault.remove(&name);
    } else {
        proof { lemma_text_insert(vault@, name@, value); }
        vault.set(&name, value);
    }
    Ok(())
}

/// A key that was stored is the one that is found, and one that was taken out is not.
pub proof fn law_stored_keys_are_found(k: KeysView, id: Text, names: Seq<Text>, key: Text)
    ensures
        filled(key) ==> (ladder(KeysView { vault: stored(k.vault, id, key), ..k }, id, names) matches Some((found, _))
            && found == trimmed(key)),
        !filled(key) ==> !usable(stored(k.vault, id, key), id),
{
    law_trimming_twice_is_trimming_once(key);
}

/// A usable key is never overlooked: where the vault holds one for the provider, or one of the
/// variables that it names holds one, a key is found, and the key is what the place named beside
/// it holds.
pub proof fn law_usable_keys_are_found(k: KeysView, id: Text, names: Seq<Text>)
    ensures
        ladder(k, id, names) is Some <==> (k.vault.contains_key(id) && trimmed(k.vault[id]).len() > 0) || exists|i: int|
            0 <= i < names.len() && (holds(k.secrets, #[trigger] names[i]) || holds(k.env, names[i])),
        ladder(k, id, names) matches Some((key, OriginView::Keychain)) ==> k.vault.contains_key(id) && key == k.vault[id] && k.kind == Kind::Keychain,
        ladder(k, id, names) matches Some((key, OriginView::File)) ==> k.vault.contains_key(id) && key == k.vault[id] && k.kind == Kind::File,
        ladder(k, id, names) matches Some((key, OriginView::Shell(n))) ==> k.secrets.contains_key(n) && key == k.secrets[n],
        ladder(k, id, names) matches Some((key, OriginView::Env(n))) ==> k.env.contains_key(n) && key == k.env[n],
{
    lemma_first_usable(k.secrets, names);
    lemma_first_usable(k.env, names);
    lemma_some_usable(k.secrets, names);
    lemma_some_usable(k.env, names);
    if first_usable(k.secrets, names) is Some {
        let i = choose|i: int| 0 <= i < names.len() && names[i] == first_usable(k.secrets, names)->0;
        assert(holds(k.secrets, names[i]));
    }
    if first_usable(k.env, names) is Some {
        let i = choose|i: int| 0 <= i < names.len() && names[i] == first_usable(k.env, names)->0;
        assert(holds(k.env, names[i]));
    }
}

/// The variable holds more than blanks.
pub open spec fn holds(m: Map<Text, Text>, name: Text) -> bool {
    m.contains_key(name) && trimmed(m[name]).len() > 0
}

proof fn lemma_some_usable(m: Map<Text, Text>, names: Seq<Text>)
    ensures
        first_usable(m, names) is None ==> forall|i: int| 0 <= i < names.len() ==> !holds(m, #[trigger] names[i]),
        first_usable(m, names) matches Some(n) ==> exists|i: int|
            0 <= i < names.len() && (#[trigger] names[i]) == n && forall|j: int| 0 <= j < i ==> !holds(m, #[trigger] names[j]),
    decreases names.len(),
{
    if names.len() > 0 {
        let rest = names.drop_first();
        lemma_some_usable(m, rest);
        if usable(m, names[0]) {
            assert(names[0] == names[0]);
        } else if first_usable(m, rest) is Some {
            let i = choose|i: int|
                0 <= i < rest.len() && (#[trigger] rest[i]) == first_usable(m, rest)->0 && forall|j: int| 0 <= j < i ==> !holds(m, #[trigger] rest[j]);
            assert(names[i + 1] == rest[i]);
            assert forall|j: int| 0 <= j < i + 1 implies !holds(m, #[trigger] names[j]) by {
                if j > 0 {
                    assert(names[j] == rest[j - 1]);
                }
            }
        } else {
            assert forall|i: int| 0 <= i < names.len() implies !holds(m, #[trigger] names[i]) by {
                if i > 0 {
                    assert(names[i] == rest[i - 1]);
                }
            }
        }
    }
}

/// The login shell is preferred to this process, and among the variables of either the one that
/// the provider names first.
pub proof fn law_the_first_variable_wins(k: KeysView, id: Text, names: Seq<Text>, i: int)
    requires
        !(k.vault.contains_key(id) && trimmed(k.vault[id]).len() > 0),
        0 <= i < names.len(),
    ensures
        holds(k.secrets, names[i]) && (forall|j: int| 0 <= j < i ==> !holds(k.secrets, #[trigger] names[j])) ==> ladder(k, id, names) == Some(
            (k.secrets[names[i]], OriginView::Shell(names[i])),
        ),
        (forall|j: int| 0 <= j < names.len() ==> !holds(k.secrets, #[trigger] names[j])) && holds(k.env, names[i]) && (forall|j: int|
            0 <= j < i ==> !holds(k.env, #[trigger] names[j])) ==> ladder(k, id, names) == Some((k.env[names[i]], OriginView::Env(names[i]))),
{
    lemma_some_usable(k.secrets, names);
    lemma_some_usable(k.env, names);
    lemma_first_usable(k.secrets, names);
    lemma_first_usable(k.env, names);
    if first_usable(k.secrets, names) is Some {
        let n = first_usable(k.secrets, names)->0;
        let a = choose|a: int|
            0 <= a < names.len() && (#[trigger] names[a]) == n && forall|j: int| 0 <= j < a ==> !holds(k.secrets, #[trigger] names[j]);
        assert(holds(k.secrets, names[a]));
        if a < i {
        } else if i < a {
            assert(!holds(k.secrets, names[i]));
        }
    }
    if first_usable(k.env, names) is Some {
        let n = first_usable(k.env, names)->0;
        let a = choose|a: int|
            0 <= a < names.len() && (#[trigger] names[a]) == n && forall|j: int| 0 <= j < a ==> !holds(k.env, #[trigger] names[j]);
        assert(holds(k.env, names[a]));
        if i < a {
            assert(!holds(k.env, names[i]));
        }
    }
}

/// Storing a key touches one provider: a blank one is forgotten, a good one is kept without the
/// blanks around it, and the keys of the others stay.
pub proof fn law_storing_touches_one_key(vault: Map<Text, Text>, id: Text, key: Text, other: Text)
    ensures
        trimmed(key).len() > 0 ==> stored(vault, id, key).contains_key(id) && stored(vault, id, key)[id] == trimmed(key),
        trimmed(key).len() == 0 ==> !stored(vault, id, key).contains_key(id),
        other != id ==> stored(vault, id, key).contains_key(other) == vault.contains_key(other),
        other != id && vault.contains_key(other) ==> stored(vault, id, key)[other] == vault[other],
{
}

}
