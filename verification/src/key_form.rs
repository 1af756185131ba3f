//! The form that shared client keys are added and edited in.

use vstd::prelude::*;
use vstd::string::*;

use crate::config::{key_views, AuthKey, AuthKeyView};
use crate::forms::{opt_slice, text_or, FORM_NAME_LIMIT};
use crate::forwards::{checked_text, Checked};
use crate::ids::{is_id, random_id};
use crate::ports::{is_same_id, opt_str, quote, quoted};
use crate::text::{normalize_spaces, opt_string, same_text, single_spaced, trim, trimmed};

verus! {

/// Whether a key other than `own` is called `name`.
pub open spec fn key_name_taken(
    keys: Seq<AuthKeyView>,
    name: Seq<char>,
    own: Option<Seq<char>>,
) -> bool {
    exists|i: int|
        0 <= i < keys.len() && (#[trigger] keys[i]).name == name && Some(keys[i].id) != own
}

/// The name that a key gets, or what is wrong with it.
pub open spec fn key_name(
    name: Seq<char>,
    keys: Seq<AuthKeyView>,
    own: Option<Seq<char>>,
) -> Result<Seq<char>, Seq<char>> {
    let name = single_spaced(name);
    if name.len() == 0 {
        Err("Key name is required"@)
    } else if name.len() > FORM_NAME_LIMIT {
        Err("Key name must be 64 characters or fewer"@)
    } else if key_name_taken(keys, name, own) {
        Err(quoted("Another key is already named \""@, name, "\""@))
    } else {
        Ok(name)
    }
}

fn is_key_name_taken(keys: &[AuthKey], name: &str, own: Option<&str>) -> (r: bool)
    ensures
        r == key_name_taken(key_views(keys@), name@, opt_str(own)),
{
    let ghost all = key_views(keys@);
    let mut i: usize = 0;
    while i < keys.len()
        invariant
            i <= keys.len(),
            all == key_views(keys@),
            forall|k: int|
                0 <= k < i ==> !((#[trigger] all[k]).name == name@ && Some(all[k].id) != opt_str(
                    own,
                )),
        decreases keys.len() - i,
    {
        assert(all[i as int] == keys@[i as int]@);
        if same_text(keys[i].name.as_str(), name) && !is_same_id(keys[i].id.as_str(), own) {
            return true;
        }
        i += 1;
    }
    false
}

/// Brings a key name into its stored shape and checks it: 1 to 64 characters, and no key other
/// than `own_id` of that name.
pub fn validate_key_name(name: &str, keys: &[AuthKey], own_id: Option<&str>) -> (r: Checked<
    String,
>)
    ensures
        checked_text(r) == key_name(name@, key_views(keys@), opt_str(own_id)),
{
    let name = normalize_spaces(name);
    if name.as_str().is_empty() {
        return Err(String::from_str("Key name is required"));
    }
    if name.as_str().unicode_len() > FORM_NAME_LIMIT {
        return Err(String::from_str("Key name must be 64 characters or fewer"));
    }
    if is_key_name_taken(keys, name.as_str(), own_id) {
        return Err(quote("Another key is already named \"", name.as_str(), "\""));
    }
    Ok(name)
}

/// The buffers of the form that adds or edits a key.
pub struct KeyForm {
    /// The key that is being edited; `None` when one is added.
    pub editing_id: Option<String>,
    pub name: String,
    pub secret: String,
}

/// What a [`KeyForm`] holds.
#[verifier::ext_equal]
pub struct KeyFormView {
    pub editing_id: Option<Seq<char>>,
    pub name: Seq<char>,
    pub secret: Seq<char>,
}

impl View for KeyForm {
    type V = KeyFormView;

    open spec fn view(&self) -> KeyFormView {
        KeyFormView {
            editing_id: opt_string(self.editing_id),
            name: self.name@,
            secret: self.secret@,
        }
    }
}

/// The name of the first key other than `own` with the given public half.
pub open spec fn public_key_holder(
    keys: Seq<AuthKeyView>,
    public_key: Seq<char>,
    own: Option<Seq<char>>,
) -> Option<Seq<char>>
    decreases keys.len(),
{
    if keys.len() == 0 {
        None
    } else if keys[0].public_key == public_key && Some(keys[0].id) != own {
        Some(keys[0].name)
    } else {
        public_key_holder(keys.drop_first(), public_key, own)
    }
}

fn find_public_key_holder(keys: &[AuthKey], public_key: &str, own: Option<&str>) -> (r: Option<
    String,
>)
    ensures
        opt_string(r) == public_key_holder(key_views(keys@), public_key@, opt_str(own)),
{
    let ghost all = key_views(keys@);
    assert(all.skip(0) == all);
    let mut i: usize = 0;
    while i < keys.len()
        invariant
            i <= keys.len(),
            all == key_views(keys@),
            public_key_holder(all, public_key@, opt_str(own)) == public_key_holder(
                all.skip(i as int),
                public_key@,
                opt_str(own),
            ),
        decreases keys.len() - i,
    {
        let k = &keys[i];
        assert(all.skip(i as int)[0] == k@);
        if same_text(k.public_key.as_str(), public_key) && !is_same_id(k.id.as_str(), own) {
            return Some(k.name.clone());
        }
        assert(all.skip(i as int).drop_first() == all.skip(i + 1));
        i += 1;
    }
    None
}

/// The view of a checked key.
pub open spec fn checked_key(r: Checked<AuthKey>) -> Result<AuthKeyView, Seq<char>> {
    match r {
        Ok(k) => Ok(k@),
        Err(e) => Err(e@),
    }
}

impl KeyFormView {
    /// The key that the filled-in form describes, or what is wrong with it. `parsed` is what
    /// reading the trimmed secret gave: its public half, or why it is no secret key. A key that
    /// is added gets the id `fresh`.
    pub open spec fn checked(
        self,
        keys: Seq<AuthKeyView>,
        parsed: Result<Seq<char>, Seq<char>>,
        fresh: Seq<char>,
    ) -> Result<AuthKeyView, Seq<char>> {
        match key_name(self.name, keys, self.editing_id) {
            Err(e) => Err(e),
            Ok(name) => if trimmed(self.secret).len() == 0 {
                Err("Secret key is required (generate one, or paste a flxtsecretv1: key)"@)
            } else {
                match parsed {
                    Err(e) => Err("Invalid secret key: "@ + e),
                    Ok(public_key) => match public_key_holder(keys, public_key, self.editing_id) {
                        Some(other) => Err(
                            quoted("Key \""@, other, "\" already holds this secret"@),
                        ),
                        None => Ok(
                            AuthKeyView {
                                id: text_or(self.editing_id, fresh),
                                name,
                                public_key,
                                secret: trimmed(self.secret),
                            },
                        ),
                    },
                }
            },
        }
    }

    /// The empty form, which adds a key.
    pub open spec fn adding() -> KeyFormView {
        KeyFormView { editing_id: None, name: Seq::empty(), secret: Seq::empty() }
    }

    /// The form that edits a key.
    pub open spec fn editing(key: AuthKeyView) -> KeyFormView {
        KeyFormView { editing_id: Some(key.id), name: key.name, secret: key.secret }
    }
}

impl Default for KeyForm {
    /// The empty form, which adds a key.
    fn default() -> (r: Self)
        ensures
            r@ == KeyFormView::adding(),
    {
        KeyForm { editing_id: None, name: String::new(), secret: String::new() }
    }
}

impl KeyForm {
    /// Whether the form edits a key rather than adding one.
    pub fn is_edit(&self) -> (r: bool)
        ensures
            r == (self@.editing_id is Some),
    {
        self.editing_id.is_some()
    }

    /// The id of the key that is being edited; `None` when one is added.
    pub fn editing_id(&self) -> (r: Option<&str>)
        ensures
            opt_str(r) == self@.editing_id,
    {
        opt_slice(&self.editing_id)
    }

    /// The form that edits `key`.
    pub fn edit(key: &AuthKey) -> (r: Self)
        ensures
            r@ == KeyFormView::editing(key@),
    {
        KeyForm {
            editing_id: Some(key.id.clone()),
            name: key.name.clone(),
            secret: key.secret.clone(),
        }
    }

    /// The secret as it is read and stored: without white space around it.
    pub fn secret_text(&self) -> (r: String)
        ensures
            r@ == trimmed(self@.secret),
    {
        trim(self.secret.as_str())
    }

    /// The public half of the form's secret, where the secret can be read. `parsed` is what
    /// reading [`secret_text`](Self::secret_text) gave.
    pub fn public_key(&self, parsed: &Checked<String>) -> (r: Option<String>)
        ensures
            opt_string(r) == match checked_text(*parsed) {
                Ok(public_key) => Some(public_key),
                Err(_) => None,
            },
    {
        match parsed {
            Ok(public_key) => Some(public_key.clone()),
            Err(_) => None,
        }
    }

    /// Checks the form and builds the key that it describes. `parsed` is what reading
    /// [`secret_text`](Self::secret_text) gave: its public half, or why it is no secret key. A key
    /// that is added gets the id `fresh`.
    pub fn validate_with_id(
        &self,
        keys: &[AuthKey],
        parsed: &Checked<String>,
        fresh: String,
    ) -> (r: Checked<AuthKey>)
        ensures
            checked_key(r) == self@.checked(key_views(keys@), checked_text(*parsed), fresh@),
    {
        let editing = opt_slice(&self.editing_id);
        let name = match validate_key_name(self.name.as_str(), keys, editing) {
            Ok(name) => name,
            Err(e) => {
                return Err(e);
            },
        };
        let secret = trim(self.secret.as_str());
        if secret.as_str().is_empty() {
            return Err(
                String::from_str(
                    "Secret key is required (generate one, or paste a flxtsecretv1: key)",
                ),
            );
        }
        let public_key = match parsed {
            Ok(public_key) => public_key.clone(),
            Err(e) => {
                let mut message = String::from_str("Invalid secret key: ");
                message.append(e.as_str());
                return Err(message);
            },
        };
        if let Some(other) = find_public_key_holder(keys, public_key.as_str(), editing) {
            return Err(quote("Key \"", other.as_str(), "\" already holds this secret"));
        }
        let id = match &self.editing_id {
            Some(id) => id.clone(),
            None => fresh,
        };
        Ok(AuthKey { id, name, public_key, secret })
    }

    /// Checks the form and builds the key that it describes, with a random id where one is added.
    pub fn validate(&self, keys: &[AuthKey], parsed: &Checked<String>) -> (r: Checked<AuthKey>)
        ensures
            exists|fresh: Seq<char>| #[trigger]
                is_id(fresh) && checked_key(r) == self@.checked(
                    key_views(keys@),
                    checked_text(*parsed),
                    fresh,
                ),
    {
        let fresh = random_id();
        let ghost id = fresh@;
        let r = self.validate_with_id(keys, parsed, fresh);
        assert(is_id(id));
        r
    }
}

} // verus!
