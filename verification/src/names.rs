//! Qualified names.
//!
//! A [`Name`] pairs an authority identifier with a local identifier. Two
//! orderings exist over names: a presentation order, lexicographic over the
//! two texts, meant for human-facing listings; and a storage order over the
//! token ids, used inside the sorted store so that comparisons never touch
//! the text.

use vstd::prelude::*;

use crate::ident::{is_valid_ident, InvalidIdentifier};
use crate::interner::{intern_id, intern_pool, IdentModel, Identifier, Interner};
use crate::text::{chars_lt, str_eq, str_lt};

verus! {

/// The mathematical value of a [`Name`]: the models of its two identifiers.
pub struct NameModel {
    /// The authority identifier.
    pub authority: IdentModel,
    /// The local identifier.
    pub name: IdentModel,
}

/// A qualified name: an authority identifier and a local identifier.
///
/// The authority distinguishes which producer defined the local name, so
/// two producers can define components of the same local name without
/// conflict.
#[derive(Debug, PartialEq, Eq, Hash)]
pub struct Name {
    /// The name of the source of this name, for example the crate defining
    /// the component. The text `_` designates a private authority.
    pub authority: Identifier,
    /// The locally unique name; it only needs to be unique within its
    /// authority.
    pub name: Identifier,
}

impl View for Name {
    type V = NameModel;

    open spec fn view(&self) -> NameModel {
        NameModel { authority: self.authority@, name: self.name@ }
    }
}

/// The storage key of a name: the pair of token ids, local id first.
pub open spec fn storage_key(n: NameModel) -> (int, int) {
    (n.name.id, n.authority.id)
}

/// Order over storage keys: compare local token ids first, then authority
/// token ids.
pub open spec fn key_lt(x: (int, int), y: (int, int)) -> bool {
    x.0 < y.0 || (x.0 == y.0 && x.1 < y.1)
}

/// Storage order over names: the order of their storage keys. This order
/// is cheap and stable but not text-based; it is used only to keep the
/// store's array sorted.
pub open spec fn storage_lt(a: NameModel, b: NameModel) -> bool {
    key_lt(storage_key(a), storage_key(b))
}

/// Presentation order: lexicographic over the authority text, then the
/// local text. This is the stable, human-meaningful order.
pub open spec fn presentation_lt(a: NameModel, b: NameModel) -> bool {
    ||| chars_lt(a.authority.text, b.authority.text)
    ||| (a.authority.text == b.authority.text && chars_lt(a.name.text, b.name.text))
}

/// The text a name presents as: the local text alone under the private
/// authority, `authority::name` otherwise.
pub open spec fn formatted(n: NameModel) -> Seq<char> {
    if n.authority.text == seq!['_'] {
        n.name.text
    } else {
        n.authority.text + seq![':', ':'] + n.name.text
    }
}

/// The first position of `s` at or after `i` where `::` occurs, or `-1`.
pub open spec fn find_sep(s: Seq<char>, i: int) -> int
    decreases s.len() - i,
{
    if i < 0 || i + 1 >= s.len() {
        -1
    } else if s[i] == ':' && s[i + 1] == ':' {
        i
    } else {
        find_sep(s, i + 1)
    }
}

/// Finds the first occurrence of `::` in `s`, if any.
fn find_sep_index(s: &str) -> (r: Option<usize>)
    ensures
        match r {
            Some(k) => find_sep(s@, 0) == k as int && k + 2 <= s@.len(),
            None => find_sep(s@, 0) == -1,
        },
{
    let len = s.unicode_len();
    if len < 2 {
        return None;
    }
    let mut i: usize = 0;
    while i < len - 1
        invariant
            0 <= i <= len - 1,
            2 <= len == s@.len(),
            find_sep(s@, 0) == find_sep(s@, i as int),
        decreases len - i,
    {
        if s.get_char(i) == ':' && s.get_char(i + 1) == ':' {
            return Some(i);
        }
        i = i + 1;
    }
    None
}

/// Both identifiers of the name model are backed by `pool`.
pub open spec fn name_model_valid(n: NameModel, pool: Seq<Seq<char>>) -> bool {
    crate::interner::ident_model_valid(n.authority, pool) && crate::interner::ident_model_valid(
        n.name,
        pool,
    )
}

impl Name {
    /// Both identifiers are backed by `pool`.
    pub open spec fn valid_for(&self, pool: Seq<Seq<char>>) -> bool {
        name_model_valid(self@, pool)
    }

    /// Returns a new name using `authority` and `name`, interning both.
    ///
    /// # Errors
    ///
    /// Returns [`InvalidIdentifier`] if either text contains a disallowed
    /// character. The authority is interned first, so when only `name` is
    /// invalid the pool still learns the authority text.
    pub fn new(interner: &mut Interner, authority: &str, name: &str) -> (r: Result<
        Name,
        InvalidIdentifier,
    >)
        requires
            old(interner).wf(),
        ensures
            final(interner).wf(),
            old(interner)@.is_prefix_of(final(interner)@),
            r is Ok <==> is_valid_ident(authority@) && is_valid_ident(name@),
            !is_valid_ident(authority@) ==> *final(interner) == *old(interner),
            is_valid_ident(authority@) && !is_valid_ident(name@) ==> final(interner)@
                == intern_pool(old(interner)@, authority@),
            r is Ok ==> final(interner)@ == intern_pool(
                intern_pool(old(interner)@, authority@),
                name@,
            ),
            r is Ok ==> ({
                let n = r->Ok_0;
                &&& n@.authority.text == authority@
                &&& n@.authority.id == intern_id(old(interner)@, authority@)
                &&& n@.name.text == name@
                &&& n@.name.id == intern_id(intern_pool(old(interner)@, authority@), name@)
                &&& n.valid_for(final(interner)@)
            }),
    {
        let authority = match interner.intern(authority) {
            Ok(id) => id,
            Err(e) => {
                return Err(e);
            },
        };
        let name = match interner.intern(name) {
            Ok(id) => id,
            Err(e) => {
                return Err(e);
            },
        };
        Ok(Name { authority, name })
    }

    /// Returns a new name with `_` as the authority, equivalent to calling
    /// [`Name::new`] with authority `"_"`.
    ///
    /// # Errors
    ///
    /// Returns [`InvalidIdentifier`] if `name` contains a disallowed
    /// character.
    pub fn private(interner: &mut Interner, name: &str) -> (r: Result<Name, InvalidIdentifier>)
        requires
            old(interner).wf(),
        ensures
            final(interner).wf(),
            old(interner)@.is_prefix_of(final(interner)@),
            r is Ok <==> is_valid_ident(name@),
            r is Err ==> final(interner)@ == intern_pool(old(interner)@, seq!['_']),
            r is Ok ==> final(interner)@ == intern_pool(
                intern_pool(old(interner)@, seq!['_']),
                name@,
            ),
            r is Ok ==> ({
                let n = r->Ok_0;
                &&& n@.authority.text == seq!['_']
                &&& n@.authority.id == intern_id(old(interner)@, seq!['_'])
                &&& n@.name.text == name@
                &&& n@.name.id == intern_id(intern_pool(old(interner)@, seq!['_']), name@)
                &&& n.valid_for(final(interner)@)
            }),
    {
        proof {
            reveal_strlit("_");
            assert("_"@ =~= seq!['_']);
        }
        Self::new(interner, "_", name)
    }

    /// Returns whether this name uses the private authority `_`.
    pub fn is_private(&self) -> (r: bool)
        ensures
            r == (self@.authority.text == seq!['_']),
    {
        proof {
            reveal_strlit("_");
            assert("_"@ =~= seq!['_']);
        }
        str_eq(self.authority.as_str(), "_")
    }

    /// Returns the presented text of this name: the local text alone under
    /// the private authority, `authority::name` otherwise.
    pub fn to_text(&self) -> (r: String)
        ensures
            r@ == formatted(self@),
    {
        if self.is_private() {
            self.name.as_str().to_owned()
        } else {
            proof {
                reveal_strlit("::");
                assert("::"@ =~= seq![':', ':']);
            }
            let mut out = self.authority.as_str().to_owned();
            out.append("::");
            out.append(self.name.as_str());
            out
        }
    }

    /// Parses presented text back into a name: the part before the first
    /// `::` is the authority, the rest the local name; text without `::`
    /// becomes a private name.
    ///
    /// # Errors
    ///
    /// Returns [`InvalidIdentifier`] if either part contains a disallowed
    /// character.
    pub fn parse(interner: &mut Interner, s: &str) -> (r: Result<Name, InvalidIdentifier>)
        requires
            old(interner).wf(),
        ensures
            final(interner).wf(),
            old(interner)@.is_prefix_of(final(interner)@),
            ({
                let sep = find_sep(s@, 0);
                if sep < 0 {
                    &&& (r is Ok <==> is_valid_ident(s@))
                    &&& r is Ok ==> ({
                        let n = r->Ok_0;
                        &&& n@.authority.text == seq!['_']
                        &&& n@.name.text == s@
                        &&& n.valid_for(final(interner)@)
                    })
                } else {
                    let authority = s@.subrange(0, sep);
                    let name = s@.subrange(sep + 2, s@.len() as int);
                    &&& (r is Ok <==> is_valid_ident(authority) && is_valid_ident(name))
                    &&& r is Ok ==> ({
                        let n = r->Ok_0;
                        &&& n@.authority.text == authority
                        &&& n@.name.text == name
                        &&& n.valid_for(final(interner)@)
                    })
                }
            }),
    {
        let len = s.unicode_len();
        let sep = find_sep_index(s);
        match sep {
            None => {
                let name = match interner.intern(s) {
                    Ok(id) => id,
                    Err(e) => {
                        return Err(e);
                    },
                };
                let authority = match interner.intern("_") {
                    Ok(id) => id,
                    Err(e) => {
                        proof {
                            reveal_strlit("_");
                            assert(is_valid_ident("_"@));
                        }
                        return Err(e);
                    },
                };
                proof {
                    reveal_strlit("_");
                    assert("_"@ =~= seq!['_']);
                }
                Ok(Name { authority, name })
            },
            Some(k) => {
                let authority_text = s.substring_char(0, k);
                let name_text = s.substring_char(k + 2, len);
                let authority = match interner.intern(authority_text) {
                    Ok(id) => id,
                    Err(e) => {
                        return Err(e);
                    },
                };
                let name = match interner.intern(name_text) {
                    Ok(id) => id,
                    Err(e) => {
                        return Err(e);
                    },
                };
                Ok(Name { authority, name })
            },
        }
    }

    /// Returns whether `self` sorts strictly before `other` in storage
    /// order.
    pub fn sorts_before(&self, other: &Name) -> (r: bool)
        ensures
            r == storage_lt(self@, other@),
    {
        let my_name = self.name.token_id();
        let other_name = other.name.token_id();
        my_name < other_name || (my_name == other_name && self.authority.token_id()
            < other.authority.token_id())
    }

    /// Returns whether `self` and `other` carry the same token ids.
    pub fn same_key(&self, other: &Name) -> (r: bool)
        ensures
            r == (storage_key(self@) == storage_key(other@)),
    {
        self.name.token_id() == other.name.token_id() && self.authority.token_id()
            == other.authority.token_id()
    }

    /// Returns whether `self` sorts strictly before `other` in
    /// presentation order.
    pub fn presents_before(&self, other: &Name) -> (r: bool)
        ensures
            r == presentation_lt(self@, other@),
    {
        if str_lt(self.authority.as_str(), other.authority.as_str()) {
            true
        } else if str_eq(self.authority.as_str(), other.authority.as_str()) {
            str_lt(self.name.as_str(), other.name.as_str())
        } else {
            false
        }
    }
}

impl Clone for Name {
    /// Cloning preserves both identifiers.
    fn clone(&self) -> (r: Self)
        ensures
            r == *self,
    {
        Name { authority: self.authority.clone(), name: self.name.clone() }
    }
}

} // verus!
