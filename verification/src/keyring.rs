//! OS-independent keyring machinery: item identifiers, the backend interface,
//! and the two in-process backends (portable and session).
//!
//! Backends that talk to an operating-system keychain implement
//! [`KeyringInterface`] in the surrounding application; the interface models a
//! backend as a map from filed key to secret value, so every backend's
//! observable behaviour has one vocabulary.

use vstd::prelude::*;
use vstd::string::StrSliceExecFns;
use vstd::string::StringExecFns;
use vstd::utf8::encode_utf8;

use crate::hashing::{blake3_hex_of, Hasher};
use crate::primitives::Algorithm;
use crate::protected::Protected;

verus! {

/// Identifies one item kept in a keyring.
#[derive(Clone, Debug)]
pub struct Identifier {
    id: String,
    usage: String,
    application: String,
}

/// Mathematical model of an [`Identifier`].
pub struct IdentifierModel {
    pub id: Seq<char>,
    pub usage: Seq<char>,
    pub application: Seq<char>,
}

impl View for Identifier {
    type V = IdentifierModel;

    closed spec fn view(&self) -> IdentifierModel {
        IdentifierModel { id: self.id@, usage: self.usage@, application: self.application@ }
    }
}

/// The key under which an identifier's item is filed: the application name, a
/// colon, and the BLAKE3 hex digest of the identifier and usage bytes.
pub open spec fn spec_identifier_hash(m: IdentifierModel) -> Seq<char> {
    m.application + (":")@ + blake3_hex_of(encode_utf8(m.id) + encode_utf8(m.usage))
}

impl Identifier {
    pub fn new(id: &str, usage: &str, application: &str) -> (r: Self)
        ensures
            r@ == (IdentifierModel { id: id@, usage: usage@, application: application@ }),
    {
        Identifier { id: id.to_owned(), usage: usage.to_owned(), application: application.to_owned() }
    }

    /// The application this identifier belongs to.
    pub fn application(&self) -> (r: String)
        ensures
            r@ == self@.application,
    {
        self.application.clone()
    }

    /// The key under which this identifier's item is filed.
    pub fn hash(&self) -> (r: String)
        ensures
            r@ == spec_identifier_hash(self@),
    {
        let mut bytes = self.id.as_str().as_bytes_vec();
        let mut usage_bytes = self.usage.as_str().as_bytes_vec();
        bytes.append(&mut usage_bytes);
        let digest = Hasher::blake3_hex(bytes.as_slice());
        let r = self.application.clone().concat(":").concat(digest.as_str());
        proof {
            assert(r@ =~= spec_identifier_hash(self@));
        }
        r
    }

    /// The account name used with Apple keychains.
    pub fn as_apple_account(&self) -> (r: String)
        ensures
            r@ == self@.id + (" - ")@ + self@.usage,
    {
        self.id.clone().concat(" - ").concat(self.usage.as_str())
    }
}

/// The keyring failed: the item is absent or the backend refused.
#[derive(Debug, Clone, Copy, PartialEq, Eq, Structural)]
pub enum KeyringError {
    Keyring,
}

/// Which backend a keyring runs on.
#[derive(Debug, Clone, Copy, PartialEq, Eq, Structural)]
pub enum KeyringName {
    Portable,
    Linux,
    MacOS,
    Ios,
    Session,
}

/// Which backend to pick when building a [`Keyring`].
#[derive(Debug, Clone, Copy)]
pub enum KeyringType {
    Default,
    Portable,
}

/// What any keyring backend offers. Backends that talk to an OS keychain
/// implement this in the surrounding application; the two in-process backends
/// implement it here, with contracts over their stores.
pub trait KeyringInterface {
    /// Build the backend.
    fn new() -> Result<Self, KeyringError> where Self: Sized;

    /// Read the item filed under `id`.
    fn get(&self, id: &Identifier) -> Result<Protected<String>, KeyringError>;

    /// Whether an item is filed under `id`.
    fn contains_key(&self, id: &Identifier) -> bool;

    /// File `value` under `id`, replacing any earlier item.
    fn insert(&mut self, id: &Identifier, value: Protected<String>) -> Result<(), KeyringError>;

    /// Drop the item filed under `id`.
    fn remove(&mut self, id: &Identifier) -> Result<(), KeyringError>;

    /// Which backend this is.
    fn name(&self) -> KeyringName;
}

/// One stored item.
#[derive(Debug)]
struct KeyEntry {
    key: String,
    value: String,
}

/// `v` with every entry filed under `k` dropped.
spec fn entries_without(v: Seq<KeyEntry>, k: Seq<char>) -> Seq<KeyEntry> {
    v.filter(|e: KeyEntry| e.key@ != k)
}

/// The map an entry list stands for; a later entry for a key overrides an
/// earlier one.
spec fn entries_map(v: Seq<KeyEntry>) -> Map<Seq<char>, Seq<char>>
    decreases v.len(),
{
    if v.len() == 0 {
        Map::empty()
    } else {
        entries_map(v.drop_last()).insert(v.last().key@, v.last().value@)
    }
}

/// The domain of the map is exactly the keys of the entries.
proof fn lemma_entries_map_dom(v: Seq<KeyEntry>)
    ensures
        forall|k: Seq<char>|
            #[trigger] entries_map(v).contains_key(k) == exists|i: int|
                0 <= i < v.len() && v[i].key@ == k,
    decreases v.len(),
{
    if v.len() != 0 {
        lemma_entries_map_dom(v.drop_last());
        assert forall|k: Seq<char>| #[trigger]
            entries_map(v).contains_key(k) == exists|i: int|
                0 <= i < v.len() && v[i].key@ == k by {
            if entries_map(v).contains_key(k) {
                if k == v.last().key@ {
                    assert(v[v.len() - 1].key@ == k);
                } else {
                    assert(entries_map(v.drop_last()).contains_key(k));
                    let w = choose|w: int|
                        0 <= w < v.drop_last().len() && v.drop_last()[w].key@ == k;
                    assert(v.drop_last()[w] == v[w]);
                    assert(v[w].key@ == k);
                }
            }
            if exists|i: int| 0 <= i < v.len() && v[i].key@ == k {
                let w = choose|w: int| 0 <= w < v.len() && v[w].key@ == k;
                if w < v.len() - 1 {
                    assert(v.drop_last()[w].key@ == k);
                    assert(entries_map(v.drop_last()).contains_key(k));
                }
            }
        }
    }
}

/// When the entry keys are distinct, any entry's value is the map's value.
proof fn lemma_entries_map_at(v: Seq<KeyEntry>, i: int)
    requires
        forall|a: int, b: int| 0 <= a < b < v.len() ==> v[a].key@ != v[b].key@,
        0 <= i < v.len(),
    ensures
        entries_map(v).contains_key(v[i].key@),
        entries_map(v)[v[i].key@] == v[i].value@,
    decreases v.len(),
{
    lemma_entries_map_dom(v);
    if i < v.len() - 1 {
        assert(v.drop_last()[i] == v[i]);
        lemma_entries_map_at(v.drop_last(), i);
        assert(v[i].key@ != v.last().key@);
    }
}

/// Dropping every entry for a key is removing the key from the map.
proof fn lemma_entries_map_without(v: Seq<KeyEntry>, k: Seq<char>)
    ensures
        entries_map(entries_without(v, k)) == entries_map(v).remove(k),
    decreases v.len(),
{
    reveal(Seq::filter);
    let pred = |e: KeyEntry| e.key@ != k;
    if v.len() == 0 {
        assert(entries_without(v, k) =~= v);
        assert(entries_map(v).remove(k) =~= Map::<Seq<char>, Seq<char>>::empty());
    } else {
        lemma_entries_map_without(v.drop_last(), k);
        let e = v.last();
        v.drop_last().lemma_filter_push(e, pred);
        assert(v.drop_last().push(e) =~= v);
        if pred(e) {
            assert(entries_without(v, k) == entries_without(v.drop_last(), k).push(e));
            assert(entries_without(v, k).drop_last() == entries_without(v.drop_last(), k));
            assert(entries_without(v, k).last() == e);
            assert(entries_map(entries_without(v, k)) =~= entries_map(v).remove(k));
        } else {
            assert(entries_without(v, k) == entries_without(v.drop_last(), k));
            assert(entries_map(entries_without(v, k)) =~= entries_map(v).remove(k));
        }
    }
}

/// The in-memory keyring: items live in the process and vanish with it.
pub struct PortableKeyring {
    entries: Vec<KeyEntry>,
}

impl PortableKeyring {
    /// Every filed key occurs at most once.
    #[verifier::type_invariant]
    spec fn inv(self) -> bool {
        forall|a: int, b: int|
            0 <= a < b < self.entries@.len() ==> self.entries@[a].key@ != self.entries@[b].key@
    }

    /// Find the index of the entry filed under `key`.
    #[verifier::loop_isolation(false)]
    fn position(&self, key: &String) -> (r: Option<usize>)
        ensures
            match r {
                Some(i) => i < self.entries@.len() && self.entries@[i as int].key@ == key@,
                None => forall|i: int|
                    0 <= i < self.entries@.len() ==> (#[trigger] self.entries@[i]).key@ != key@,
            },
    {
        let n = self.entries.len();
        let mut i: usize = 0;
        while i < n
            invariant
                0 <= i <= n,
                n == self.entries@.len(),
                forall|k: int| 0 <= k < i ==> (#[trigger] self.entries@[k]).key@ != key@,
            decreases n - i,
        {
            if self.entries[i].key == *key {
                return Some(i);
            }
            i += 1;
        }
        None
    }
}

impl PortableKeyring {
    /// The items currently stored: filed key to secret value.
    pub closed spec fn store(&self) -> Map<Seq<char>, Seq<char>> {
        entries_map(self.entries@)
    }
}

impl KeyringInterface for PortableKeyring {
    fn new() -> (r: Result<Self, KeyringError>)
        ensures
            r matches Ok(k) ==> k.store() == Map::<Seq<char>, Seq<char>>::empty(),
            r is Ok,
    {
        Ok(PortableKeyring { entries: Vec::new() })
    }

    fn get(&self, id: &Identifier) -> (r: Result<Protected<String>, KeyringError>)
        ensures
            (r is Ok) == self.store().contains_key(spec_identifier_hash(id@)),
            (r matches Ok(v) ==> v.spec_inner()@ == self.store()[spec_identifier_hash(id@)]),
    {
        let key = id.hash();
        proof {
            use_type_invariant(self);
            lemma_entries_map_dom(self.entries@);
        }
        match self.position(&key) {
            Some(i) => {
                proof {
                    lemma_entries_map_at(self.entries@, i as int);
                }
                Ok(Protected::new(self.entries[i].value.clone()))
            },
            None => Err(KeyringError::Keyring),
        }
    }

    fn contains_key(&self, id: &Identifier) -> (r: bool)
        ensures
            r == self.store().contains_key(spec_identifier_hash(id@)),
    {
        let key = id.hash();
        proof {
            use_type_invariant(self);
            lemma_entries_map_dom(self.entries@);
        }
        match self.position(&key) {
            Some(_) => true,
            None => false,
        }
    }

    fn insert(&mut self, id: &Identifier, value: Protected<String>) -> (r: Result<
        (),
        KeyringError,
    >)
        ensures
            r is Ok,
            final(self).store() == old(self).store().insert(
                spec_identifier_hash(id@),
                value.spec_inner()@,
            ),
    {
        let key = id.hash();
        proof {
            use_type_invariant(&*self);
        }
        let ghost pre = self.entries@;
        let (mut kept, _) = self.without_key(&key);
        let ghost mid = kept@;
        kept.push(KeyEntry { key: key.clone(), value: value.into_inner() });
        proof {
            assert(kept@.drop_last() =~= mid);
            assert(forall|a: int, b: int|
                0 <= a < b < kept@.len() ==> kept@[a].key@ != kept@[b].key@);
        }
        self.entries = kept;
        proof {
            lemma_entries_map_without(pre, key@);
            assert(self.store() =~= old(self).store().insert(
                spec_identifier_hash(id@),
                value.spec_inner()@,
            ));
        }
        Ok(())
    }

    fn remove(&mut self, id: &Identifier) -> (r: Result<(), KeyringError>)
        ensures
            (r is Ok) == old(self).store().contains_key(spec_identifier_hash(id@)),
            final(self).store() == old(self).store().remove(spec_identifier_hash(id@)),
    {
        let key = id.hash();
        proof {
            use_type_invariant(&*self);
            lemma_entries_map_dom(self.entries@);
            lemma_entries_map_without(self.entries@, spec_identifier_hash(id@));
        }
        let (kept, found) = self.without_key(&key);
        self.entries = kept;
        proof {
            lemma_entries_map_without(old(self).entries@, key@);
        }
        if found {
            Ok(())
        } else {
            proof {
                assert(old(self).store() =~= old(self).store().remove(
                    spec_identifier_hash(id@),
                ));
            }
            Err(KeyringError::Keyring)
        }
    }

    fn name(&self) -> (r: KeyringName)
        ensures
            r == KeyringName::Portable,
    {
        KeyringName::Portable
    }
}

impl PortableKeyring {
    /// The entries with every one filed under `key` dropped, and whether one
    /// was filed.
    #[verifier::loop_isolation(false)]
    fn without_key(&self, key: &String) -> (r: (Vec<KeyEntry>, bool))
        ensures
            r.0@ == entries_without(self.entries@, key@),
            forall|i: int| 0 <= i < r.0@.len() ==> (#[trigger] r.0@[i]).key@ != key@,
            forall|a: int, b: int| 0 <= a < b < r.0@.len() ==> r.0@[a].key@ != r.0@[b].key@,
            r.1 == exists|i: int|
                0 <= i < self.entries@.len() && (#[trigger] self.entries@[i]).key@ == key@,
    {
        let ghost pred = |e: KeyEntry| e.key@ != key@;
        let n = self.entries.len();
        let mut kept: Vec<KeyEntry> = Vec::new();
        let mut found = false;
        let mut i: usize = 0;
        proof {
            assert(self.entries@.subrange(0, 0) =~= Seq::<KeyEntry>::empty());
            assert(Seq::<KeyEntry>::empty().filter(pred) =~= Seq::<KeyEntry>::empty()) by {
                reveal(Seq::filter);
            }
        }
        while i < n
            invariant
                0 <= i <= n,
                n == self.entries@.len(),
                kept@ == self.entries@.subrange(0, i as int).filter(pred),
                found == exists|k: int|
                    0 <= k < i && (#[trigger] self.entries@[k]).key@ == key@,
            decreases n - i,
        {
            let ghost pre = self.entries@.subrange(0, i as int);
            let ghost cur = self.entries@[i as int];
            proof {
                assert(self.entries@.subrange(0, i as int + 1) =~= pre.push(cur));
                pre.lemma_filter_push(cur, pred);
            }
            if self.entries[i].key == *key {
                found = true;
            } else {
                let e = &self.entries[i];
                kept.push(KeyEntry { key: e.key.clone(), value: e.value.clone() });
            }
            i += 1;
        }
        proof {
            assert(self.entries@.subrange(0, n as int) =~= self.entries@);
            broadcast use vstd::seq_lib::group_filter_ensures;

            use_type_invariant(self);
            lemma_key_filter_distinct(self.entries@, pred);
        }
        (kept, found)
    }
}

/// Everything a filter keeps was already in the sequence.
proof fn lemma_key_filter_subset(s: Seq<KeyEntry>, pred: spec_fn(KeyEntry) -> bool)
    ensures
        forall|x: KeyEntry| #[trigger] s.filter(pred).contains(x) ==> s.contains(x),
    decreases s.len(),
{
    reveal(Seq::filter);
    if s.len() != 0 {
        lemma_key_filter_subset(s.drop_last(), pred);
        assert forall|x: KeyEntry| #[trigger]
            s.filter(pred).contains(x) implies s.contains(x) by {
            if s.drop_last().filter(pred).contains(x) {
                let w = choose|w: int| 0 <= w < s.drop_last().len() && s.drop_last()[w] == x;
                assert(s[w] == x);
            } else {
                assert(s[s.len() - 1] == x);
            }
        }
    }
}

/// Filtering keeps filed keys distinct.
proof fn lemma_key_filter_distinct(s: Seq<KeyEntry>, pred: spec_fn(KeyEntry) -> bool)
    requires
        forall|a: int, b: int| 0 <= a < b < s.len() ==> s[a].key@ != s[b].key@,
    ensures
        forall|a: int, b: int|
            0 <= a < b < s.filter(pred).len() ==> s.filter(pred)[a].key@ != s.filter(
                pred,
            )[b].key@,
    decreases s.len(),
{
    reveal(Seq::filter);
    if s.len() != 0 {
        assert(forall|a: int, b: int|
            0 <= a < b < s.drop_last().len() ==> s.drop_last()[a].key@ != s.drop_last()[b].key@);
        lemma_key_filter_distinct(s.drop_last(), pred);
        if pred(s.last()) {
            let sub = s.drop_last().filter(pred);
            lemma_key_filter_subset(s.drop_last(), pred);
            let out = sub.push(s.last());
            assert forall|a: int, b: int|
                0 <= a < b < out.len() implies out[a].key@ != out[b].key@ by {
                if b == sub.len() {
                    assert(sub.contains(sub[a]));
                    let w = choose|w: int|
                        0 <= w < s.drop_last().len() && s.drop_last()[w] == sub[a];
                    assert(s[w] == sub[a]);
                    assert(s[w].key@ != s[s.len() - 1].key@);
                }
            }
        }
    }
}

/// The session keyring: an in-memory store that lives for one run of the
/// process.
pub struct SessionKeyring {
    algorithm: Algorithm,
    inner: PortableKeyring,
}

impl SessionKeyring {
    /// The items currently stored: filed key to secret value.
    pub closed spec fn store(&self) -> Map<Seq<char>, Seq<char>> {
        self.inner.store()
    }
}

impl KeyringInterface for SessionKeyring {
    fn new() -> (r: Result<Self, KeyringError>)
        ensures
            r matches Ok(k) ==> k.store() == Map::<Seq<char>, Seq<char>>::empty(),
            r is Ok,
    {
        match PortableKeyring::new() {
            Ok(inner) => Ok(SessionKeyring { algorithm: Algorithm::default(), inner }),
            Err(e) => Err(e),
        }
    }

    fn get(&self, id: &Identifier) -> (r: Result<Protected<String>, KeyringError>)
        ensures
            (r is Ok) == self.store().contains_key(spec_identifier_hash(id@)),
            (r matches Ok(v) ==> v.spec_inner()@ == self.store()[spec_identifier_hash(id@)]),
    {
        self.inner.get(id)
    }

    fn contains_key(&self, id: &Identifier) -> (r: bool)
        ensures
            r == self.store().contains_key(spec_identifier_hash(id@)),
    {
        self.inner.contains_key(id)
    }

    fn insert(&mut self, id: &Identifier, value: Protected<String>) -> (r: Result<
        (),
        KeyringError,
    >)
        ensures
            r is Ok,
            final(self).store() == old(self).store().insert(
                spec_identifier_hash(id@),
                value.spec_inner()@,
            ),
    {
        self.inner.insert(id, value)
    }

    fn remove(&mut self, id: &Identifier) -> (r: Result<(), KeyringError>)
        ensures
            (r is Ok) == old(self).store().contains_key(spec_identifier_hash(id@)),
            final(self).store() == old(self).store().remove(spec_identifier_hash(id@)),
    {
        self.inner.remove(id)
    }

    fn name(&self) -> (r: KeyringName)
        ensures
            r == KeyringName::Session,
    {
        KeyringName::Session
    }
}

/// The keyring used around the crate. In this build both backend choices
/// resolve to the portable in-memory backend; OS-keychain backends implement
/// [`KeyringInterface`] in the surrounding application.
pub struct Keyring {
    inner: PortableKeyring,
}

impl Keyring {
    /// The items currently stored: filed key to secret value.
    pub closed spec fn store(&self) -> Map<Seq<char>, Seq<char>> {
        self.inner.store()
    }

    pub fn new(backend: KeyringType) -> (r: Result<Self, KeyringError>)
        ensures
            r matches Ok(k) ==> k.store() == Map::<Seq<char>, Seq<char>>::empty(),
            r is Ok,
    {
        let inner = match backend {
            KeyringType::Default => PortableKeyring::new(),
            KeyringType::Portable => PortableKeyring::new(),
        };
        match inner {
            Ok(p) => Ok(Keyring { inner: p }),
            Err(e) => Err(e),
        }
    }

    /// Read the item filed under `id`; an error exactly when nothing is.
    pub fn get(&self, id: &Identifier) -> (r: Result<Protected<String>, KeyringError>)
        ensures
            (r is Ok) == self.store().contains_key(spec_identifier_hash(id@)),
            (r matches Ok(v) ==> v.spec_inner()@ == self.store()[spec_identifier_hash(id@)]),
    {
        self.inner.get(id)
    }

    /// Whether an item is filed under `id`.
    pub fn contains_key(&self, id: &Identifier) -> (r: bool)
        ensures
            r == self.store().contains_key(spec_identifier_hash(id@)),
    {
        self.inner.contains_key(id)
    }

    /// Drop the item filed under `id`; an error exactly when nothing was
    /// filed.
    pub fn remove(&mut self, id: &Identifier) -> (r: Result<(), KeyringError>)
        ensures
            (r is Ok) == old(self).store().contains_key(spec_identifier_hash(id@)),
            final(self).store() == old(self).store().remove(spec_identifier_hash(id@)),
    {
        self.inner.remove(id)
    }

    /// File `value` under `id`, replacing any earlier item; never fails.
    pub fn insert(&mut self, id: &Identifier, value: Protected<String>) -> (r: Result<
        (),
        KeyringError,
    >)
        ensures
            r is Ok,
            final(self).store() == old(self).store().insert(
                spec_identifier_hash(id@),
                value.spec_inner()@,
            ),
    {
        self.inner.insert(id, value)
    }

    /// Which backend this keyring runs on.
    pub fn name(&self) -> (r: KeyringName)
        ensures
            r == KeyringName::Portable,
    {
        self.inner.name()
    }
}

} // verus!
