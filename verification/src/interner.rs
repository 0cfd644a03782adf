//! Identifier interning.
//!
//! An [`Interner`] is an append-only pool of identifier text. Interning the
//! same text twice yields the same token id, so equality and ordering of
//! interned identifiers reduce to integer comparisons and never touch the
//! text. The pool is an explicit value with its own lifecycle; callers pass
//! it to every identifier constructor.

use vstd::prelude::*;

use crate::ident::{is_valid_ident, validate_identifier, InvalidIdentifier};
use crate::text::str_eq;

verus! {

/// The mathematical value of an [`Identifier`]: its token id and its text.
pub struct IdentModel {
    /// The token id assigned by the interner.
    pub id: int,
    /// The identifier text.
    pub text: Seq<char>,
}

/// An interned identifier: a token id paired with the validated text it was
/// interned from.
///
/// Two identifiers built from equal text by the same interner carry the same
/// token id, so comparing identifiers is a single integer comparison that
/// never touches the text.
#[derive(Debug, Eq, Hash)]
pub struct Identifier {
    pub(crate) id: usize,
    pub(crate) text: String,
}

impl PartialEq for Identifier {
    /// Token equality: one integer comparison of the token ids. Within one
    /// interner, equal ids mean equal text.
    fn eq(&self, other: &Identifier) -> (r: bool) {
        self.id == other.id
    }
}

impl vstd::std_specs::cmp::PartialEqSpecImpl for Identifier {
    open spec fn obeys_eq_spec() -> bool {
        true
    }

    open spec fn eq_spec(&self, other: &Identifier) -> bool {
        self@.id == other@.id
    }
}

impl View for Identifier {
    type V = IdentModel;

    closed spec fn view(&self) -> IdentModel {
        IdentModel { id: self.id as int, text: self.text@ }
    }
}

/// The identifier model is backed by `pool`: its token id resolves to its
/// text.
pub open spec fn ident_model_valid(m: IdentModel, pool: Seq<Seq<char>>) -> bool {
    &&& 0 <= m.id < pool.len()
    &&& pool[m.id] == m.text
}

/// Token identity: within one pool of distinct entries, two backed
/// identifiers carry equal texts exactly when they carry equal token ids.
/// Equality of interned identifiers therefore never needs the text.
pub proof fn lemma_token_identity(pool: Seq<Seq<char>>, a: IdentModel, b: IdentModel)
    requires
        forall|i: int, j: int| 0 <= i < j < pool.len() ==> pool[i] != pool[j],
        ident_model_valid(a, pool),
        ident_model_valid(b, pool),
    ensures
        a.text == b.text <==> a.id == b.id,
{
    if a.text == b.text && a.id != b.id {
        if a.id < b.id {
            assert(pool[a.id] != pool[b.id]);
        } else {
            assert(pool[b.id] != pool[a.id]);
        }
        assert(false);
    }
}

/// Tokens live as long as the pool: the pool is append-only, so an
/// identifier backed by it stays backed by every later state of it.
pub proof fn lemma_ident_valid_prefix(m: IdentModel, pool1: Seq<Seq<char>>, pool2: Seq<Seq<char>>)
    requires
        ident_model_valid(m, pool1),
        pool1.is_prefix_of(pool2),
    ensures
        ident_model_valid(m, pool2),
{
    assert(pool1 =~= pool2.subrange(0, pool1.len() as int));
    assert(pool2.subrange(0, pool1.len() as int)[m.id] == pool2[m.id]);
}

impl Identifier {
    /// The identifier is backed by `pool`: its token id resolves to its text.
    pub open spec fn valid_for(&self, pool: Seq<Seq<char>>) -> bool {
        ident_model_valid(self@, pool)
    }

    /// Validates `name` and interns it, returning its identifier.
    ///
    /// # Errors
    ///
    /// Returns [`InvalidIdentifier`] exactly when `name` contains a
    /// character outside `a-z`, `A-Z`, `0-9`, `_`.
    pub fn new(interner: &mut Interner, name: &str) -> (r: Result<Identifier, InvalidIdentifier>)
        requires
            old(interner).wf(),
        ensures
            final(interner).wf(),
            old(interner)@.is_prefix_of(final(interner)@),
            r is Ok <==> is_valid_ident(name@),
            r is Err ==> *final(interner) == *old(interner),
            r is Ok ==> final(interner)@ == intern_pool(old(interner)@, name@),
            r is Ok ==> r->Ok_0@.text == name@ && r->Ok_0@.id == intern_id(old(interner)@, name@)
                && r->Ok_0.valid_for(final(interner)@),
    {
        interner.intern(name)
    }

    /// Returns the identifier used to designate a private authority: the
    /// interned text `_`.
    pub fn private(interner: &mut Interner) -> (r: Identifier)
        requires
            old(interner).wf(),
        ensures
            final(interner).wf(),
            old(interner)@.is_prefix_of(final(interner)@),
            final(interner)@ == intern_pool(old(interner)@, seq!['_']),
            r@.text == seq!['_'],
            r@.id == intern_id(old(interner)@, seq!['_']),
            r.valid_for(final(interner)@),
    {
        proof {
            reveal_strlit("_");
            assert("_"@ =~= seq!['_']);
        }
        match interner.intern("_") {
            Ok(id) => id,
            Err(_) => unreached(),
        }
    }

    /// Validates `name` without interning it.
    ///
    /// # Errors
    ///
    /// Returns [`InvalidIdentifier`] exactly when `name` contains a
    /// character outside `a-z`, `A-Z`, `0-9`, `_`.
    pub fn validate(name: &str) -> (r: Result<(), InvalidIdentifier>)
        ensures
            r is Ok <==> is_valid_ident(name@),
    {
        validate_identifier(name)
    }

    /// The identifier text.
    pub fn as_str(&self) -> (r: &str)
        ensures
            r@ == self@.text,
    {
        self.text.as_str()
    }

    /// The token id assigned when the text was interned.
    pub fn token_id(&self) -> (r: usize)
        ensures
            r == self@.id,
    {
        self.id
    }
}

impl Clone for Identifier {
    /// Cloning preserves both the token id and the text.
    fn clone(&self) -> (r: Self)
        ensures
            r == *self,
    {
        Identifier { id: self.id, text: self.text.clone() }
    }
}

/// Some entry of `pool` holds exactly the text `t`.
pub open spec fn pool_has(pool: Seq<Seq<char>>, t: Seq<char>) -> bool {
    exists|i: int| 0 <= i < pool.len() && pool[i] == t
}

/// The entry of `pool` holding `t`; meaningful only when [`pool_has`] holds
/// and the pool entries are distinct.
pub open spec fn pool_id(pool: Seq<Seq<char>>, t: Seq<char>) -> int {
    choose|i: int| 0 <= i < pool.len() && pool[i] == t
}

/// The pool after interning `t`: unchanged when `t` is already present,
/// extended by `t` otherwise.
pub open spec fn intern_pool(pool: Seq<Seq<char>>, t: Seq<char>) -> Seq<Seq<char>> {
    if pool_has(pool, t) {
        pool
    } else {
        pool.push(t)
    }
}

/// The token id that interning `t` yields: the existing entry when present,
/// the next fresh id otherwise.
pub open spec fn intern_id(pool: Seq<Seq<char>>, t: Seq<char>) -> int {
    if pool_has(pool, t) {
        pool_id(pool, t)
    } else {
        pool.len() as int
    }
}

/// An append-only pool of distinct, valid identifier text.
///
/// The pool's view is the sequence of interned texts; an identifier's token
/// id is its index in that sequence.
pub struct Interner {
    entries: Vec<String>,
}

impl View for Interner {
    type V = Seq<Seq<char>>;

    closed spec fn view(&self) -> Seq<Seq<char>> {
        self.entries.deep_view()
    }
}

impl Interner {
    /// The pool entries are pairwise distinct and each is valid identifier
    /// text.
    pub open spec fn wf(&self) -> bool {
        &&& forall|i: int, j: int| 0 <= i < j < self@.len() ==> self@[i] != self@[j]
        &&& forall|i: int| 0 <= i < self@.len() ==> is_valid_ident(#[trigger] self@[i])
    }

    /// Returns a new, empty interner.
    pub fn new() -> (r: Self)
        ensures
            r@ == Seq::<Seq<char>>::empty(),
            r.wf(),
    {
        let entries: Vec<String> = Vec::new();
        Interner { entries }
    }

    /// Returns the number of distinct texts interned so far.
    pub fn len(&self) -> (r: usize)
        ensures
            r == self@.len(),
    {
        self.entries.len()
    }

    /// Finds the entry equal to `text`, if one exists.
    fn lookup(&self, text: &str) -> (r: Option<usize>)
        ensures
            match r {
                Some(i) => i < self@.len() && self@[i as int] == text@,
                None => !pool_has(self@, text@),
            },
    {
        let n = self.entries.len();
        let mut i: usize = 0;
        while i < n
            invariant
                0 <= i <= n,
                n == self@.len(),
                forall|j: int| 0 <= j < i ==> self@[j] != text@,
            decreases n - i,
        {
            proof {
                assert(self@[i as int] == self.entries[i as int]@);
            }
            if str_eq(self.entries[i].as_str(), text) {
                return Some(i);
            }
            i = i + 1;
        }
        None
    }

    /// Validates `text` and returns its interned identifier.
    ///
    /// Interning is idempotent: if equal text was interned before, the
    /// existing token id is returned and the pool is unchanged; otherwise
    /// the text is appended and assigned the next id. The pool only grows,
    /// so identifiers backed by the old pool remain backed by the new one.
    ///
    /// # Errors
    ///
    /// Returns [`InvalidIdentifier`] exactly when `text` contains a
    /// character outside `a-z`, `A-Z`, `0-9`, `_`; the pool is unchanged in
    /// that case.
    pub fn intern(&mut self, text: &str) -> (r: Result<Identifier, InvalidIdentifier>)
        requires
            old(self).wf(),
        ensures
            final(self).wf(),
            old(self)@.is_prefix_of(final(self)@),
            r is Ok <==> is_valid_ident(text@),
            r is Err ==> *final(self) == *old(self),
            r is Ok ==> final(self)@ == intern_pool(old(self)@, text@),
            r is Ok ==> r->Ok_0@.text == text@ && r->Ok_0@.id == intern_id(old(self)@, text@)
                && r->Ok_0.valid_for(final(self)@),
    {
        if let Err(e) = validate_identifier(text) {
            return Err(e);
        }
        match self.lookup(text) {
            Some(i) => {
                proof {
                    let found = i as int;
                    assert(pool_has(self@, text@));
                    let picked = pool_id(self@, text@);
                    if picked != found {
                        if picked < found {
                            assert(self@[picked] != self@[found]);
                        } else {
                            assert(self@[found] != self@[picked]);
                        }
                        assert(false);
                    }
                }
                Ok(Identifier { id: i, text: text.to_owned() })
            },
            None => {
                let id = self.entries.len();
                self.entries.push(text.to_owned());
                proof {
                    assert(self@ =~= old(self)@.push(text@));
                    assert forall|i: int, j: int| 0 <= i < j < self@.len() implies self@[i]
                        != self@[j] by {
                        if j == self@.len() - 1 {
                            assert(!pool_has(old(self)@, text@));
                            assert(old(self)@[i] != text@);
                        }
                    }
                }
                Ok(Identifier { id, text: text.to_owned() })
            },
        }
    }
}

/// Interning is idempotent: once `t` has been interned into a pool of
/// distinct entries, interning it again yields the same token id and leaves
/// the pool unchanged.
pub proof fn lemma_intern_idempotent(pool: Seq<Seq<char>>, t: Seq<char>)
    requires
        forall|i: int, j: int| 0 <= i < j < pool.len() ==> pool[i] != pool[j],
    ensures
        intern_pool(intern_pool(pool, t), t) == intern_pool(pool, t),
        intern_id(intern_pool(pool, t), t) == intern_id(pool, t),
{
    let pool1 = intern_pool(pool, t);
    if pool_has(pool, t) {
        assert(pool1 == pool);
    } else {
        assert(pool1 == pool.push(t));
        assert(pool1[pool.len() as int] == t);
        assert(pool_has(pool1, t));
        assert(intern_pool(pool1, t) == pool1);
        let picked = pool_id(pool1, t);
        assert(0 <= picked < pool1.len() && pool1[picked] == t);
        if picked < pool.len() {
            assert(pool[picked] == t);
            assert(pool_has(pool, t));
            assert(false);
        }
        assert(picked == pool.len() as int);
    }
}

} // verus!
