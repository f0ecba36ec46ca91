//! The bidirectional function-name mapper.
//!
//! Model APIs restrict identifier characters, so original benchmark
//! function names are deterministically sanitized before they cross the
//! model boundary, and every sanitized name a model answers with is
//! restored through the recorded pairs — never re-derived, so an unknown
//! name is surfaced as an error instead of being guessed at.

use crate::assoc::{
    assoc_keys_distinct, assoc_lookup, lemma_assoc_lookup_element, lemma_assoc_lookup_push,
    lemma_assoc_lookup_unique,
};
use crate::strutil::{push_char, string_eq};
use vstd::prelude::*;

verus! {

/// A sanitized-name lookup that found no recorded pair: either the model
/// invented a function name, or a pipeline ordering bug registered names
/// too late.  Carries the name that was looked up or collided.
#[derive(Debug)]
pub struct LookupError {
    pub name: String,
}

/// A character that may appear in a sanitized identifier: an ASCII letter,
/// digit, underscore or hyphen.
pub open spec fn ident_char(c: char) -> bool {
    ||| ('a' <= c && c <= 'z')
    ||| ('A' <= c && c <= 'Z')
    ||| ('0' <= c && c <= '9')
    ||| c == '_'
    ||| c == '-'
}

/// How one character is sanitized: identifier characters stand, everything
/// else becomes an underscore.
pub open spec fn sanitize_char(c: char) -> char {
    if ident_char(c) {
        c
    } else {
        '_'
    }
}

/// The sanitized form of a name, character by character.
pub open spec fn sanitized_of(s: Seq<char>) -> Seq<char> {
    Seq::new(s.len(), |i: int| sanitize_char(s[i]))
}

/// Sanitizing is idempotent.
pub proof fn lemma_sanitize_idempotent(s: Seq<char>)
    ensures
        sanitized_of(sanitized_of(s)) == sanitized_of(s),
{
    assert(sanitized_of(sanitized_of(s)) =~= sanitized_of(s));
}

/// The recorded pairs of one run, as maps in both directions.
pub open spec fn pairs_view(v: Seq<(String, String)>) -> Seq<(Seq<char>, Seq<char>)> {
    Seq::new(v.len(), |i: int| (v[i].0@, v[i].1@))
}

/// The bidirectional, injective map between original and sanitized
/// function names, built incrementally over one run.
#[derive(Debug)]
pub struct FunctionNameMapper {
    pub original_to_sanitized: Vec<(String, String)>,
    pub sanitized_to_original: Vec<(String, String)>,
}

impl FunctionNameMapper {
    /// The recorded original-to-sanitized pairs.
    pub open spec fn o2s(&self) -> Seq<(Seq<char>, Seq<char>)> {
        pairs_view(self.original_to_sanitized@)
    }

    /// The recorded sanitized-to-original pairs.
    pub open spec fn s2o(&self) -> Seq<(Seq<char>, Seq<char>)> {
        pairs_view(self.sanitized_to_original@)
    }

    /// The mapper's invariant: the two directions record the same pairs,
    /// each recorded sanitized name is derived from its original, and both
    /// directions are keyed uniquely — the map is injective.
    pub open spec fn wf(&self) -> bool {
        &&& self.s2o().len() == self.o2s().len()
        &&& forall|i: int|
            0 <= i < self.o2s().len() ==> #[trigger] self.s2o()[i] == (
                self.o2s()[i].1,
                self.o2s()[i].0,
            )
        &&& forall|i: int|
            0 <= i < self.o2s().len() ==> (#[trigger] self.o2s()[i]).1 == sanitized_of(
                self.o2s()[i].0,
            )
        &&& assoc_keys_distinct(self.o2s())
        &&& assoc_keys_distinct(self.s2o())
    }

    /// An empty mapper.
    pub fn new() -> (r: FunctionNameMapper)
        ensures
            r.wf(),
            r.o2s().len() == 0,
    {
        let r = FunctionNameMapper {
            original_to_sanitized: Vec::new(),
            sanitized_to_original: Vec::new(),
        };
        proof {
            assert(r.o2s() =~= Seq::<(Seq<char>, Seq<char>)>::empty());
            assert(r.s2o() =~= Seq::<(Seq<char>, Seq<char>)>::empty());
        }
        r
    }

    /// The sanitized name recorded for an original name, if any.
    pub fn lookup_sanitized(&self, original: &String) -> (r: Option<String>)
        ensures
            match r {
                Some(s) => assoc_lookup(self.o2s(), original@) == Some(s@),
                None => assoc_lookup(self.o2s(), original@) is None,
            },
    {
        let ghost m = self.o2s();
        proof {
            assert(m.skip(0) =~= m);
        }
        let mut i: usize = 0;
        while i < self.original_to_sanitized.len()
            invariant
                i <= self.original_to_sanitized@.len(),
                m == self.o2s(),
                m.len() == self.original_to_sanitized@.len(),
                forall|k: int| 0 <= k < m.len() ==> m[k] == (
                    self.original_to_sanitized@[k].0@,
                    self.original_to_sanitized@[k].1@,
                ),
                assoc_lookup(m, original@) == assoc_lookup(m.skip(i as int), original@),
            decreases self.original_to_sanitized@.len() - i,
        {
            if string_eq(&self.original_to_sanitized[i].0, original) {
                proof {
                    assert(m.skip(i as int)[0] == m[i as int]);
                }
                return Some(self.original_to_sanitized[i].1.clone());
            }
            proof {
                assert(m.skip(i as int)[0] == m[i as int]);
                assert(m.skip(i as int).drop_first() =~= m.skip(i + 1 as int));
            }
            i += 1;
        }
        proof {
            assert(m.skip(m.len() as int).len() == 0);
        }
        None
    }

    /// The original name recorded for a sanitized name, if any.
    pub fn lookup_original(&self, sanitized: &String) -> (r: Option<String>)
        ensures
            match r {
                Some(o) => assoc_lookup(self.s2o(), sanitized@) == Some(o@),
                None => assoc_lookup(self.s2o(), sanitized@) is None,
            },
    {
        let ghost m = self.s2o();
        proof {
            assert(m.skip(0) =~= m);
        }
        let mut i: usize = 0;
        while i < self.sanitized_to_original.len()
            invariant
                i <= self.sanitized_to_original@.len(),
                m == self.s2o(),
                m.len() == self.sanitized_to_original@.len(),
                forall|k: int| 0 <= k < m.len() ==> m[k] == (
                    self.sanitized_to_original@[k].0@,
                    self.sanitized_to_original@[k].1@,
                ),
                assoc_lookup(m, sanitized@) == assoc_lookup(m.skip(i as int), sanitized@),
            decreases self.sanitized_to_original@.len() - i,
        {
            if string_eq(&self.sanitized_to_original[i].0, sanitized) {
                proof {
                    assert(m.skip(i as int)[0] == m[i as int]);
                }
                return Some(self.sanitized_to_original[i].1.clone());
            }
            proof {
                assert(m.skip(i as int)[0] == m[i as int]);
                assert(m.skip(i as int).drop_first() =~= m.skip(i + 1 as int));
            }
            i += 1;
        }
        proof {
            assert(m.skip(m.len() as int).len() == 0);
        }
        None
    }

    /// Sanitizes an original name and records the pair on first use.
    /// Returns the sanitized name; fails when a different original name
    /// already sanitizes to the same string — a collision must surface, not
    /// silently overwrite.  Nothing but the one pair changes: repeating a
    /// call leaves the mapper exactly as it was, and every other name, in
    /// either direction, is recorded afterwards exactly as before.
    pub fn sanitize(&mut self, original: &String) -> (r: Result<String, LookupError>)
        requires
            old(self).wf(),
        ensures
            final(self).wf(),
            match r {
                Ok(s) => {
                    &&& s@ == sanitized_of(original@)
                    &&& assoc_lookup(final(self).o2s(), original@) == Some(s@)
                    &&& assoc_lookup(final(self).s2o(), s@) == Some(original@)
                    &&& assoc_lookup(old(self).o2s(), original@) is Some ==> *final(self) == *old(
                        self,
                    )
                    &&& forall|k: Seq<char>|
                        k != original@ ==> #[trigger] assoc_lookup(final(self).o2s(), k)
                            == assoc_lookup(old(self).o2s(), k)
                    &&& forall|k: Seq<char>|
                        k != sanitized_of(original@) ==> #[trigger] assoc_lookup(
                            final(self).s2o(),
                            k,
                        ) == assoc_lookup(old(self).s2o(), k)
                },
                Err(_) => {
                    &&& *final(self) == *old(self)
                    &&& assoc_lookup(old(self).o2s(), original@) is None
                    &&& assoc_lookup(old(self).s2o(), sanitized_of(original@)) is Some
                    &&& assoc_lookup(old(self).s2o(), sanitized_of(original@)) != Some(original@)
                },
            },
    {
        match self.lookup_sanitized(original) {
            Some(s) => {
                proof {
                    lemma_assoc_lookup_element(self.o2s(), original@);
                    let i = choose|i: int|
                        0 <= i < self.o2s().len() && (#[trigger] self.o2s()[i]) == (
                            original@,
                            assoc_lookup(self.o2s(), original@)->0,
                        );
                    assert(self.s2o()[i] == (s@, original@));
                    lemma_assoc_lookup_unique(self.s2o(), i);
                    assert forall|k: Seq<char>|
                        assoc_lookup(old(self).o2s(), k) is Some implies #[trigger] assoc_lookup(
                        final(self).o2s(),
                        k,
                    ) == assoc_lookup(old(self).o2s(), k) by {}
                }
                Ok(s)
            },
            None => {
                let s = sanitize_name(original);
                match self.lookup_original(&s) {
                    Some(o) => {
                        // a different original name already claims this
                        // sanitized form: refuse loudly
                        proof {
                            if assoc_lookup(self.s2o(), s@) == Some(original@) {
                                lemma_assoc_lookup_element(self.s2o(), s@);
                                let i = choose|i: int|
                                    0 <= i < self.s2o().len() && (#[trigger] self.s2o()[i]) == (
                                        s@,
                                        assoc_lookup(self.s2o(), s@)->0,
                                    );
                                assert(self.o2s()[i] == (original@, s@));
                                lemma_assoc_lookup_unique(self.o2s(), i);
                            }
                        }
                        return Err(LookupError { name: o });
                    },
                    None => {
                        let ghost old_o2s = self.o2s();
                        let ghost old_s2o = self.s2o();
                        self.original_to_sanitized.push((original.clone(), s.clone()));
                        self.sanitized_to_original.push((s.clone(), original.clone()));
                        proof {
                            assert(self.o2s() =~= old_o2s.push((original@, s@)));
                            assert(self.s2o() =~= old_s2o.push((s@, original@)));
                            lemma_assoc_lookup_push(old_o2s, (original@, s@), original@);
                            lemma_assoc_lookup_push(old_s2o, (s@, original@), s@);
                            assert forall|k: Seq<char>|
                                k != original@ implies #[trigger] assoc_lookup(self.o2s(), k)
                                == assoc_lookup(old_o2s, k) by {
                                lemma_assoc_lookup_push(old_o2s, (original@, s@), k);
                            }
                            assert forall|k: Seq<char>|
                                k != s@ implies #[trigger] assoc_lookup(self.s2o(), k)
                                == assoc_lookup(old_s2o, k) by {
                                lemma_assoc_lookup_push(old_s2o, (s@, original@), k);
                            }
                            assert forall|a: int, b: int|
                                0 <= a < b < self.o2s().len() implies (
                            #[trigger] self.o2s()[a]).0 != (#[trigger] self.o2s()[b]).0 by {
                                if b == self.o2s().len() - 1 {
                                    lemma_assoc_lookup_unique(old_o2s, a);
                                }
                            }
                            assert forall|a: int, b: int|
                                0 <= a < b < self.s2o().len() implies (
                            #[trigger] self.s2o()[a]).0 != (#[trigger] self.s2o()[b]).0 by {
                                if b == self.s2o().len() - 1 {
                                    lemma_assoc_lookup_unique(old_s2o, a);
                                }
                            }
                        }
                        Ok(s)
                    },
                }
            },
        }
    }

    /// Restores the original name recorded for a sanitized name; fails
    /// when the name was never registered in this run.
    pub fn restore(&self, sanitized: &String) -> (r: Result<String, LookupError>)
        ensures
            match r {
                Ok(o) => assoc_lookup(self.s2o(), sanitized@) == Some(o@),
                Err(_) => assoc_lookup(self.s2o(), sanitized@) is None,
            },
    {
        match self.lookup_original(sanitized) {
            Some(o) => Ok(o),
            None => Err(LookupError { name: sanitized.clone() }),
        }
    }
}

/// The sanitized form of a name.
pub fn sanitize_name(original: &String) -> (r: String)
    ensures
        r@ == sanitized_of(original@),
{
    let n = original.as_str().unicode_len();
    let mut out = String::new();
    let mut i: usize = 0;
    while i < n
        invariant
            n == original@.len(),
            i <= n,
            out@ == sanitized_of(original@).subrange(0, i as int),
        decreases n - i,
    {
        let c = original.as_str().get_char(i);
        let keep: bool = (('a' <= c && c <= 'z') || ('A' <= c && c <= 'Z') || ('0' <= c && c
            <= '9') || c == '_' || c == '-');
        if keep {
            push_char(&mut out, c);
        } else {
            push_char(&mut out, '_');
        }
        proof {
            assert(out@ =~= sanitized_of(original@).subrange(0, i + 1 as int));
        }
        i += 1;
    }
    proof {
        assert(sanitized_of(original@).subrange(0, original@.len() as int) =~= sanitized_of(
            original@,
        ));
    }
    out
}

/// Within one run the mapper is a bijection: any recorded original name
/// restores from its sanitized name, and any recorded sanitized name
/// sanitizes back to it.
pub proof fn lemma_restore_after_sanitize(m: FunctionNameMapper, original: Seq<char>, s: Seq<char>)
    requires
        m.wf(),
        assoc_lookup(m.o2s(), original) == Some(s),
    ensures
        assoc_lookup(m.s2o(), s) == Some(original),
{
    lemma_assoc_lookup_element(m.o2s(), original);
    let i = choose|i: int|
        0 <= i < m.o2s().len() && (#[trigger] m.o2s()[i]) == (
            original,
            assoc_lookup(m.o2s(), original)->0,
        );
    assert(m.s2o()[i] == (s, original));
    lemma_assoc_lookup_unique(m.s2o(), i);
}

} // verus!
