//! The secret vault: the map of secrets it holds, the key it is encrypted
//! with, and sealing and opening its encrypted file.

use vstd::prelude::*;

use crate::app_error::{outcome, AppError, AppErrorView, AppResult};
use crate::text::same_text;
use crate::trusted::{aes256_gcm_siv_open, aes256_gcm_siv_opened, aes256_gcm_siv_seal, aes256_gcm_siv_sealed, random_nonce};

verus! {

/// The secrets of the accounts, by account id.
pub struct SecretMap {
    entries: Vec<(String, String)>,
}

/// Pairs collected into a map in order, a later pair replacing an earlier
/// one with the same key.
pub open spec fn entries_as_map(pairs: Seq<(Seq<char>, Seq<char>)>) -> Map<Seq<char>, Seq<char>>
    decreases pairs.len(),
{
    if pairs.len() == 0 {
        Map::empty()
    } else {
        entries_as_map(pairs.drop_last()).insert(pairs.last().0, pairs.last().1)
    }
}

impl SecretMap {
    /// No account id occurs twice.
    #[verifier::type_invariant]
    closed spec fn keys_distinct(self) -> bool {
        forall|i: int, j: int|
            0 <= i < j < self.entries@.len() ==> self.entries@[i].0@ != self.entries@[j].0@
    }

    /// Some entry has the key `k`.
    closed spec fn has_key(self, k: Seq<char>) -> bool {
        exists|i: int| 0 <= i < self.entries@.len() && #[trigger] self.entries@[i].0@ == k
    }

    /// The position of the entry with key `k`.
    closed spec fn key_index(self, k: Seq<char>) -> int {
        choose|i: int| 0 <= i < self.entries@.len() && #[trigger] self.entries@[i].0@ == k
    }
}

impl View for SecretMap {
    type V = Map<Seq<char>, Seq<char>>;

    closed spec fn view(&self) -> Map<Seq<char>, Seq<char>> {
        Map::new(|k: Seq<char>| self.has_key(k), |k: Seq<char>| self.entries@[self.key_index(k)].1@)
    }
}

impl SecretMap {
    proof fn lemma_index(self, i: int)
        requires
            self.keys_distinct(),
            0 <= i < self.entries@.len(),
        ensures
            self.has_key(self.entries@[i].0@),
            self.key_index(self.entries@[i].0@) == i,
            self@.contains_key(self.entries@[i].0@),
            self@[self.entries@[i].0@] == self.entries@[i].1@,
    {
        let k = self.entries@[i].0@;
        assert(self.has_key(k));
        let j = self.key_index(k);
        if j != i {
            if j < i {
                assert(self.entries@[j].0@ != self.entries@[i].0@);
            } else {
                assert(self.entries@[i].0@ != self.entries@[j].0@);
            }
        }
    }

    /// A map without secrets.
    pub fn new() -> (r: SecretMap)
        ensures
            r@ == Map::<Seq<char>, Seq<char>>::empty(),
    {
        let r = SecretMap { entries: Vec::new() };
        assert(r@ =~= Map::<Seq<char>, Seq<char>>::empty());
        r
    }

    /// The position of the entry for `id`, if there is one.
    fn position(&self, id: &str) -> (r: Option<usize>)
        ensures
            match r {
                Some(i) => i < self.entries@.len() && self.entries@[i as int].0@ == id@,
                None => !self.has_key(id@),
            },
    {
        let mut i: usize = 0;
        while i < self.entries.len()
            invariant
                i <= self.entries@.len(),
                forall|j: int| 0 <= j < i ==> self.entries@[j].0@ != id@,
            decreases self.entries.len() - i,
        {
            if same_text(self.entries[i].0.as_str(), id) {
                return Some(i);
            }
            i = i + 1;
        }
        None
    }

    /// The secret stored for `id`.
    pub fn get(&self, id: &str) -> (r: Option<String>)
        ensures
            match r {
                Some(secret) => self@.contains_key(id@) && self@[id@] == secret@,
                None => !self@.contains_key(id@),
            },
    {
        proof {
            use_type_invariant(self);
        }
        match self.position(id) {
            Some(i) => {
                proof {
                    self.lemma_index(i as int);
                }
                Some(self.entries[i].1.clone())
            },
            None => None,
        }
    }

    /// The secret stored for `id`; a missing one is a `NotFound("secret")`.
    pub fn lookup(&self, id: &str) -> (r: AppResult<String>)
        ensures
            outcome(r) == if self@.contains_key(id@) {
                Ok::<Seq<char>, AppErrorView>(self@[id@])
            } else {
                Err(AppErrorView::NotFound("secret"@))
            },
    {
        match self.get(id) {
            Some(secret) => Ok(secret),
            None => Err(AppError::NotFound(String::from_str("secret"))),
        }
    }

    /// Stores `secret` for `id`, replacing what was stored for it.
    pub fn insert(&mut self, id: String, secret: String)
        ensures
            final(self)@ == old(self)@.insert(id@, secret@),
    {
        proof {
            use_type_invariant(&*self);
        }
        let ghost before = *self;
        let ghost k = id@;
        let ghost v = secret@;
        match self.position(id.as_str()) {
            Some(i) => {
                let mut entries = Vec::new();
                std::mem::swap(&mut entries, &mut self.entries);
                entries.set(i, (id, secret));
                self.entries = entries;
                assert forall|a: int, b: int|
                    0 <= a < b < self.entries@.len() implies self.entries@[a].0@
                    != self.entries@[b].0@ by {
                    assert(before.entries@[a].0@ != before.entries@[b].0@);
                }
                assert(self.keys_distinct());
                assert forall|key: Seq<char>| #[trigger] self.has_key(key) == (before.has_key(key) || key == k) by {
                    if before.has_key(key) {
                        let j = before.key_index(key);
                        assert(self.entries@[j].0@ == key || j == i);
                    }
                    if self.has_key(key) {
                        let j = self.key_index(key);
                        assert(before.entries@[j].0@ == key || j == i);
                    }
                    assert(self.entries@[i as int].0@ == k);
                }
                assert(self@ =~= before@.insert(k, v)) by {
                    assert forall|key: Seq<char>| #[trigger] self@.contains_key(key) implies self@[key]
                        == before@.insert(k, v)[key] by {
                        let j = self.key_index(key);
                        self.lemma_index(j);
                        if key != k {
                            before.lemma_index(j);
                        } else {
                            self.lemma_index(i as int);
                        }
                    }
                }
            },
            None => {
                let mut entries = Vec::new();
                std::mem::swap(&mut entries, &mut self.entries);
                entries.push((id, secret));
                self.entries = entries;
                let ghost n = before.entries@.len() as int;
                assert(self.keys_distinct()) by {
                    assert forall|a: int, b: int|
                        0 <= a < b < self.entries@.len() implies self.entries@[a].0@
                        != self.entries@[b].0@ by {
                        if b == n {
                            assert(before.entries@[a].0@ != k);
                        }
                    }
                }
                assert forall|key: Seq<char>| #[trigger] self.has_key(key) == (before.has_key(key) || key == k) by {
                    if before.has_key(key) {
                        let j = before.key_index(key);
                        assert(self.entries@[j].0@ == key);
                    }
                    if self.has_key(key) {
                        let j = self.key_index(key);
                        if j < n {
                            assert(before.entries@[j].0@ == key);
                        }
                    }
                    assert(self.entries@[n].0@ == k);
                }
                assert(self@ =~= before@.insert(k, v)) by {
                    assert forall|key: Seq<char>| #[trigger] self@.contains_key(key) implies self@[key]
                        == before@.insert(k, v)[key] by {
                        let j = self.key_index(key);
                        self.lemma_index(j);
                        if key != k {
                            before.lemma_index(j);
                        } else {
                            self.lemma_index(n);
                        }
                    }
                }
            },
        }
    }

    /// Forgets the secret stored for `id`, if any.
    pub fn remove(&mut self, id: &str)
        ensures
            final(self)@ == old(self)@.remove(id@),
    {
        proof {
            use_type_invariant(&*self);
        }
        let ghost before = *self;
        let ghost k = id@;
        match self.position(id) {
            Some(i) => {
                let mut entries = Vec::new();
                std::mem::swap(&mut entries, &mut self.entries);
                entries.remove(i);
                self.entries = entries;
                assert(self.entries@ == before.entries@.remove(i as int));
                let ghost at = |j: int| if j < i { j } else { j + 1 };
                assert forall|j: int| 0 <= j < self.entries@.len() implies #[trigger] self.entries@[j] == before.entries@[at(j)] by {
                    assert(before.entries@.remove(i as int)[j] == before.entries@[at(j)]);
                }
                assert forall|a: int, b: int|
                    0 <= a < b < self.entries@.len() implies self.entries@[a].0@
                    != self.entries@[b].0@ by {
                    assert(self.entries@[a] == before.entries@[at(a)]);
                    assert(self.entries@[b] == before.entries@[at(b)]);
                    assert(before.entries@[at(a)].0@ != before.entries@[at(b)].0@);
                }
                assert forall|key: Seq<char>| #[trigger] self.has_key(key) == (before.has_key(key) && key != k) by {
                    if before.has_key(key) && key != k {
                        let j = before.key_index(key);
                        assert(j != i);
                        if j < i {
                            assert(self.entries@[j].0@ == key);
                        } else {
                            assert(self.entries@[j - 1].0@ == key);
                        }
                    }
                    if self.has_key(key) {
                        let j = self.key_index(key);
                        assert(self.entries@[j] == before.entries@[at(j)]);
                        before.lemma_index(at(j));
                        before.lemma_index(i as int);
                    }
                }
                assert(self@ =~= before@.remove(k)) by {
                    assert forall|key: Seq<char>| #[trigger] self@.contains_key(key) implies self@[key]
                        == before@.remove(k)[key] by {
                        let j = self.key_index(key);
                        self.lemma_index(j);
                        assert(self.entries@[j] == before.entries@[at(j)]);
                        before.lemma_index(at(j));
                    }
                }
            },
            None => {
                assert(self@ =~= before@.remove(k));
            },
        }
    }

    /// The map of the given pairs, a later pair winning over an earlier one.
    pub fn from_entries(pairs: Vec<(String, String)>) -> (r: SecretMap)
        ensures
            r@ == entries_as_map(pairs.deep_view()),
    {
        let mut r = SecretMap::new();
        let mut rest = pairs;
        let ghost all = rest.deep_view();
        let ghost mut t: int = 0;
        assert(all.take(0) =~= Seq::<(Seq<char>, Seq<char>)>::empty());
        assert(rest.deep_view() =~= all.skip(0));
        while rest.len() > 0
            invariant
                0 <= t <= all.len(),
                rest.deep_view() == all.skip(t),
                r@ == entries_as_map(all.take(t)),
            decreases rest.len(),
        {
            let ghost old_rest = rest@;
            let ghost old_view = rest.deep_view();
            let (id, secret) = rest.remove(0);
            proof {
                assert(old_view[0] == old_rest[0].deep_view());
                assert(all.skip(t)[0] == old_view[0]);
                assert(all.skip(t)[0] == (id@, secret@));
                assert(old_view.len() == old_rest.len());
                assert(t < all.len());
                assert(all.take(t + 1).drop_last() =~= all.take(t));
                assert(all.take(t + 1).last() == (id@, secret@));
                assert(rest@ == old_rest.remove(0));
                assert forall|j: int| 0 <= j < rest@.len() implies #[trigger] rest.deep_view()[j] == all.skip(t + 1)[j] by {
                    assert(rest@[j] == old_rest[j + 1]);
                    assert(old_view[j + 1] == old_rest[j + 1].deep_view());
                    assert(all.skip(t + 1)[j] == all.skip(t)[j + 1]);
                }
                assert(rest.deep_view() =~= all.skip(t + 1));
                t = t + 1;
            }
            r.insert(id, secret);
        }
        assert(all.take(t) =~= all);
        r
    }

    /// The stored pairs, each account id once, in no particular order.
    pub fn entries(&self) -> (r: &Vec<(String, String)>)
        ensures
            forall|i: int| 0 <= i < r@.len() ==> #[trigger] self@.contains_key(r@[i].0@) && self@[r@[i].0@] == r@[i].1@,
            forall|k: Seq<char>| #[trigger] self@.contains_key(k) ==> exists|i: int| 0 <= i < r@.len() && #[trigger] r@[i].0@ == k,
            forall|i: int, j: int| 0 <= i < j < r@.len() ==> r@[i].0@ != r@[j].0@,
    {
        proof {
            use_type_invariant(self);
            assert forall|i: int| 0 <= i < self.entries@.len() implies #[trigger] self@.contains_key(self.entries@[i].0@) && self@[self.entries@[i].0@] == self.entries@[i].1@ by {
                self.lemma_index(i);
            }
        }
        &self.entries
    }

}


/// Storing a secret for an id and then looking it up gives that secret.
pub proof fn law_lookup_after_insert(m: Map<Seq<char>, Seq<char>>, id: Seq<char>, secret: Seq<char>)
    ensures
        m.insert(id, secret).contains_key(id),
        m.insert(id, secret)[id] == secret,
{
}

/// Storing a secret for one id leaves what is stored for every other id.
pub proof fn law_insert_keeps_others(m: Map<Seq<char>, Seq<char>>, id: Seq<char>, secret: Seq<char>, other: Seq<char>)
    requires
        other != id,
    ensures
        m.insert(id, secret).contains_key(other) == m.contains_key(other),
        m.contains_key(other) ==> m.insert(id, secret)[other] == m[other],
{
}

/// After the secret of an id is forgotten, looking it up finds nothing,
/// and what is stored for every other id stays.
pub proof fn law_lookup_after_remove(m: Map<Seq<char>, Seq<char>>, id: Seq<char>, other: Seq<char>)
    ensures
        !m.remove(id).contains_key(id),
        other != id ==> m.remove(id).contains_key(other) == m.contains_key(other),
        other != id && m.contains_key(other) ==> m.remove(id)[other] == m[other],
{
}

/// The key the vault is encrypted with: 32 bytes.
pub struct VaultKey {
    bytes: Vec<u8>,
}

impl VaultKey {
    /// A vault key has 32 bytes, the key size of AES-256.
    #[verifier::type_invariant]
    closed spec fn is_key_sized(self) -> bool {
        self.bytes@.len() == 32
    }
}

impl View for VaultKey {
    type V = Seq<u8>;

    closed spec fn view(&self) -> Seq<u8> {
        self.bytes@
    }
}

impl VaultKey {
    /// The key in the bytes of a key file; any other length than 32 is refused.
    pub fn from_bytes(raw: Vec<u8>) -> (r: AppResult<VaultKey>)
        ensures
            raw@.len() == 32 ==> (r matches Ok(key) && key@ == raw@),
            raw@.len() != 32 ==> (r matches Err(e) && e@ == AppErrorView::SecureStore(
                "Secret vault key is invalid"@,
            )),
    {
        if raw.len() != 32 {
            return Err(AppError::SecureStore(String::from_str("Secret vault key is invalid")));
        }
        Ok(VaultKey { bytes: raw })
    }

    /// The key's bytes, as a key file holds them.
    pub fn as_bytes(&self) -> (r: &[u8])
        ensures
            r@ == self@,
            r@.len() == 32,
    {
        proof {
            use_type_invariant(self);
        }
        self.bytes.as_slice()
    }
}

/// The vault's file format version.
pub open spec fn vault_version() -> u32 {
    1
}

/// The encrypted vault as its file holds it.
#[derive(Debug, Clone)]
pub struct VaultFile {
    pub version: u32,
    pub nonce: Vec<u8>,
    pub ciphertext: Vec<u8>,
}

impl View for VaultFile {
    type V = (u32, Seq<u8>, Seq<u8>);

    open spec fn view(&self) -> (u32, Seq<u8>, Seq<u8>) {
        (self.version, self.nonce@, self.ciphertext@)
    }
}

/// The vault file that sealing `plaintext` under `key` with `nonce` gives.
pub open spec fn sealed_vault(key: Seq<u8>, nonce: Seq<u8>, plaintext: Seq<u8>) -> Result<(u32, Seq<u8>, Seq<u8>), AppErrorView> {
    match aes256_gcm_siv_sealed(key, nonce, plaintext) {
        Some(ciphertext) => Ok((vault_version(), nonce, ciphertext)),
        None => Err(AppErrorView::SecureStore("Secret vault could not be encrypted"@)),
    }
}

/// What opening a vault file under `key` gives: its plaintext, or the
/// first of its version, nonce and ciphertext that is refused.
pub open spec fn opened_vault(vault: (u32, Seq<u8>, Seq<u8>), key: Seq<u8>) -> Result<Seq<u8>, AppErrorView> {
    if vault.0 != vault_version() {
        Err(AppErrorView::SecureStore("Secret vault version is unsupported"@))
    } else if vault.1.len() != 12 {
        Err(AppErrorView::SecureStore("Secret vault nonce is invalid"@))
    } else {
        match aes256_gcm_siv_opened(key, vault.1, vault.2) {
            Some(plaintext) => Ok(plaintext),
            None => Err(AppErrorView::SecureStore("Secret vault could not be decrypted"@)),
        }
    }
}

/// Encrypts the vault's contents under `key` with the given 12-byte nonce.
pub fn seal_vault_with_nonce(key: &VaultKey, nonce: Vec<u8>, plaintext: &[u8]) -> (r: AppResult<VaultFile>)
    requires
        nonce@.len() == 12,
    ensures
        outcome(r) == sealed_vault(key@, nonce@, plaintext@),
{
    let key_bytes = key.as_bytes();
    match aes256_gcm_siv_seal(key_bytes, nonce.as_slice(), plaintext) {
        Ok(ciphertext) => Ok(VaultFile { version: 1, nonce, ciphertext }),
        Err(_) => Err(AppError::SecureStore(String::from_str("Secret vault could not be encrypted"))),
    }
}

/// Encrypts the vault's contents under `key` with a fresh random nonce:
/// whatever nonce the system's generator gives, the file is the sealing
/// with that nonce; a generator that fails is reported as an error.
pub fn seal_vault(key: &VaultKey, plaintext: &[u8]) -> (r: AppResult<VaultFile>)
    ensures
        (r matches Err(e) && e@ == AppErrorView::SecureStore("Secret vault nonce could not be generated"@))
            || exists|nonce: Seq<u8>| nonce.len() == 12 && #[trigger] sealed_vault(key@, nonce, plaintext@) == outcome(r),
{
    let nonce = match random_nonce() {
        Ok(nonce) => nonce,
        Err(_) => {
            return Err(AppError::SecureStore(String::from_str("Secret vault nonce could not be generated")));
        },
    };
    let ghost n = nonce@;
    let r = seal_vault_with_nonce(key, nonce, plaintext);
    assert(sealed_vault(key@, n, plaintext@) == outcome(r));
    r
}

/// Decrypts a vault file under `key`. A file that sealing made from some
/// contents under the same key opens to those contents.
pub fn open_vault(vault: &VaultFile, key: &VaultKey) -> (r: AppResult<Vec<u8>>)
    ensures
        outcome(r) == opened_vault(vault@, key@),
        forall|plaintext: Seq<u8>|
            vault@.1.len() == 12 && #[trigger] sealed_vault(key@, vault@.1, plaintext) == Ok::<
                (u32, Seq<u8>, Seq<u8>),
                AppErrorView,
            >(vault@) ==> outcome(r) == Ok::<Seq<u8>, AppErrorView>(plaintext),
{
    if vault.version != 1 {
        return Err(AppError::SecureStore(String::from_str("Secret vault version is unsupported")));
    }
    if vault.nonce.len() != 12 {
        return Err(AppError::SecureStore(String::from_str("Secret vault nonce is invalid")));
    }
    let key_bytes = key.as_bytes();
    match aes256_gcm_siv_open(key_bytes, vault.nonce.as_slice(), vault.ciphertext.as_slice()) {
        Ok(plaintext) => Ok(plaintext),
        Err(_) => Err(AppError::SecureStore(String::from_str("Secret vault could not be decrypted"))),
    }
}

/// The storage backend that keeps secrets in the local encrypted vault.
pub open spec fn local_backend() -> Seq<char> {
    "local-v1"@
}

/// Whether the stored backend marker names the local encrypted vault.
pub fn is_local_backend(backend: &Option<String>) -> (r: bool)
    ensures
        r == (backend.deep_view() == Some(local_backend())),
{
    match backend {
        Some(name) => same_text(name.as_str(), "local-v1"),
        None => false,
    }
}

/// The notice shown once after switching to the local vault cleared the
/// accounts.
pub open spec fn storage_reset_notice() -> Seq<char> {
    "Desktop2FA switched to local encrypted storage to stop macOS Keychain prompts. Existing accounts were cleared and need to be added again."@
}

/// On switching to the local vault: the notice to keep when accounts had to
/// be cleared, none otherwise.
pub fn reset_notice(had_accounts: bool) -> (r: Option<String>)
    ensures
        r.deep_view() == switch_notice(had_accounts),
{
    if had_accounts {
        Some(
            String::from_str(
                "Desktop2FA switched to local encrypted storage to stop macOS Keychain prompts. Existing accounts were cleared and need to be added again.",
            ),
        )
    } else {
        None
    }
}


/// No key occurs twice among the pairs.
pub open spec fn keys_are_distinct(pairs: Seq<(Seq<char>, Seq<char>)>) -> bool {
    forall|i: int, j: int| 0 <= i < j < pairs.len() ==> pairs[i].0 != pairs[j].0
}

proof fn lemma_entries_as_map_distinct(pairs: Seq<(Seq<char>, Seq<char>)>)
    requires
        keys_are_distinct(pairs),
    ensures
        forall|i: int|
            0 <= i < pairs.len() ==> #[trigger] entries_as_map(pairs).contains_key(pairs[i].0)
                && entries_as_map(pairs)[pairs[i].0] == pairs[i].1,
        forall|k: Seq<char>|
            #[trigger] entries_as_map(pairs).contains_key(k) ==> exists|i: int|
                0 <= i < pairs.len() && pairs[i].0 == k,
    decreases pairs.len(),
{
    if pairs.len() > 0 {
        let init = pairs.drop_last();
        assert(keys_are_distinct(init));
        lemma_entries_as_map_distinct(init);
        let n = pairs.len() - 1;
        assert forall|i: int| 0 <= i < pairs.len() implies #[trigger] entries_as_map(pairs).contains_key(
            pairs[i].0,
        ) && entries_as_map(pairs)[pairs[i].0] == pairs[i].1 by {
            assert(entries_as_map(pairs) == entries_as_map(init).insert(pairs[n].0, pairs[n].1));
            if i < n {
                assert(init[i] == pairs[i]);
                assert(pairs[i].0 != pairs[n].0);
                assert(entries_as_map(init).contains_key(init[i].0));
            }
        }
        assert forall|k: Seq<char>| #[trigger] entries_as_map(pairs).contains_key(k) implies exists|i: int|
            0 <= i < pairs.len() && pairs[i].0 == k by {
            assert(entries_as_map(pairs) == entries_as_map(init).insert(pairs[n].0, pairs[n].1));
            if k != pairs[n].0 {
                assert(entries_as_map(init).contains_key(k));
                let i = choose|i: int| 0 <= i < init.len() && init[i].0 == k;
                assert(pairs[i] == init[i]);
            }
        }
    }
}

/// Collecting the pairs that [`SecretMap::entries`] lists gives the map
/// back: `SecretMap::from_entries` of a map's entries is that map.
pub proof fn law_entries_rebuild_map(m: Map<Seq<char>, Seq<char>>, pairs: Seq<(Seq<char>, Seq<char>)>)
    requires
        forall|i: int| 0 <= i < pairs.len() ==> #[trigger] m.contains_key(pairs[i].0) && m[pairs[i].0] == pairs[i].1,
        forall|k: Seq<char>| #[trigger] m.contains_key(k) ==> exists|i: int| 0 <= i < pairs.len() && pairs[i].0 == k,
        keys_are_distinct(pairs),
    ensures
        entries_as_map(pairs) == m,
{
    lemma_entries_as_map_distinct(pairs);
    let e = entries_as_map(pairs);
    assert forall|k: Seq<char>| #[trigger] e.contains_key(k) == m.contains_key(k) by {
        if e.contains_key(k) {
            let i = choose|i: int| 0 <= i < pairs.len() && pairs[i].0 == k;
            assert(m.contains_key(pairs[i].0));
        }
        if m.contains_key(k) {
            let i = choose|i: int| 0 <= i < pairs.len() && pairs[i].0 == k;
            assert(e.contains_key(pairs[i].0));
        }
    }
    assert forall|k: Seq<char>| #[trigger] e.contains_key(k) implies e[k] == m[k] by {
        let i = choose|i: int| 0 <= i < pairs.len() && pairs[i].0 == k;
        assert(e.contains_key(pairs[i].0));
    }
    assert(e =~= m);
}

/// What the store holds for secret storage: the backend marker, whether
/// accounts are stored, the pending notice, and whether the vault exists.
pub struct StorageState {
    pub backend: Option<Seq<char>>,
    pub has_accounts: bool,
    pub notice: Option<Seq<char>>,
    pub vault_exists: bool,
}

/// The notice that switching to the local vault leaves: the reset notice
/// when accounts had to be cleared, none otherwise.
pub open spec fn switch_notice(had_accounts: bool) -> Option<Seq<char>> {
    if had_accounts {
        Some(storage_reset_notice())
    } else {
        None
    }
}

/// The state after initializing secret storage. On the local vault already,
/// only a missing vault is created. Otherwise the accounts are cleared
/// (with the reset notice if there were any, else the notice removed), the
/// vault is created and the backend marked as the local vault.
pub open spec fn initialized_storage(s: StorageState) -> StorageState {
    if s.backend == Some(local_backend()) {
        StorageState { vault_exists: true, ..s }
    } else {
        StorageState {
            backend: Some(local_backend()),
            has_accounts: false,
            notice: switch_notice(s.has_accounts),
            vault_exists: true,
        }
    }
}

/// After initialization the backend is the local vault and the vault
/// exists; on the local vault already, accounts and notice are untouched;
/// and initializing again changes nothing.
pub proof fn law_storage_initialization(s: StorageState)
    ensures
        initialized_storage(s).backend == Some(local_backend()),
        initialized_storage(s).vault_exists,
        s.backend == Some(local_backend()) ==> initialized_storage(s).has_accounts == s.has_accounts
            && initialized_storage(s).notice == s.notice,
        initialized_storage(initialized_storage(s)) == initialized_storage(s),
{
}


/// What to do with the pending notice.
pub enum NoticeAction {
    Keep,
    Put(String),
    Delete,
}

/// The steps that initializing secret storage takes on the store.
pub struct StorageActions {
    pub create_vault: bool,
    pub clear_accounts: bool,
    pub notice: NoticeAction,
    pub mark_local: bool,
}

/// The notice after `action` was applied to the notice `current`.
pub open spec fn applied_notice(action: NoticeAction, current: Option<Seq<char>>) -> Option<Seq<char>> {
    match action {
        NoticeAction::Keep => current,
        NoticeAction::Put(text) => Some(text@),
        NoticeAction::Delete => None,
    }
}

/// The state after the steps `a` were carried out on `s`.
pub open spec fn applied_storage(a: StorageActions, s: StorageState) -> StorageState {
    StorageState {
        backend: if a.mark_local { Some(local_backend()) } else { s.backend },
        has_accounts: if a.clear_accounts { false } else { s.has_accounts },
        notice: applied_notice(a.notice, s.notice),
        vault_exists: if a.create_vault { true } else { s.vault_exists },
    }
}

/// Decides the steps that bring secret storage onto the local vault. On the
/// local vault already, only a missing vault is created; otherwise the
/// accounts are cleared if there are any (leaving the reset notice, else
/// removing the notice), the vault is created and the backend is marked as
/// the local vault. `vault_exists` is read only on the local vault and
/// `has_accounts` only off it.
pub fn plan_storage_initialization(backend: &Option<String>, vault_exists: bool, has_accounts: bool) -> (r:
    StorageActions)
    ensures
        forall|notice: Option<Seq<char>>|
            #![trigger applied_notice(r.notice, notice)]
            applied_storage(
                r,
                StorageState { backend: backend.deep_view(), has_accounts, notice, vault_exists },
            ) == initialized_storage(
                StorageState { backend: backend.deep_view(), has_accounts, notice, vault_exists },
            ),
        r.mark_local == (backend.deep_view() != Some(local_backend())),
        r.create_vault == (r.mark_local || !vault_exists),
        r.clear_accounts == (r.mark_local && has_accounts),
        !r.mark_local ==> r.notice is Keep,
        r.mark_local && has_accounts ==> (r.notice matches NoticeAction::Put(text) && text@
            == storage_reset_notice()),
        r.mark_local && !has_accounts ==> r.notice is Delete,
{
    if is_local_backend(backend) {
        StorageActions {
            create_vault: !vault_exists,
            clear_accounts: false,
            notice: NoticeAction::Keep,
            mark_local: false,
        }
    } else {
        let notice = match reset_notice(has_accounts) {
            Some(text) => NoticeAction::Put(text),
            None => NoticeAction::Delete,
        };
        StorageActions { create_vault: true, clear_accounts: has_accounts, notice, mark_local: true }
    }
}

} // verus!
