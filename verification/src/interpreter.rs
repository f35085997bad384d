//! The context: a named registry of callables, built once at startup and
//! consulted read-only thereafter. Registration is append-or-overwrite by
//! name; the last registration for a name wins.

use vstd::prelude::*;
use vstd::string::StrSliceExecFns;
use crate::objects::PrimitiveFunction;

verus! {

/// Character-wise equality of two texts.
fn str_eq(a: &str, b: &str) -> (r: bool)
    ensures
        r == (a@ == b@),
{
    let n = a.unicode_len();
    if n != b.unicode_len() {
        return false;
    }
    let mut i: usize = 0;
    while i < n
        invariant
            n == a@.len(),
            n == b@.len(),
            i <= n,
            forall|j: int| 0 <= j < i ==> a@[j] == b@[j],
        decreases n - i,
    {
        if a.get_char(i) != b.get_char(i) {
            return false;
        }
        i = i + 1;
    }
    proof {
        assert(a@ =~= b@);
    }
    true
}

/// A named registry mapping identifiers to primitive callables.
pub struct Context<F> where F: Fn(u64) -> u64 {
    functions: Vec<(String, PrimitiveFunction<F>)>,
}

impl<F: Fn(u64) -> u64> Context<F> {
    /// The registry a sequence of registrations builds: later entries for
    /// a name override earlier ones.
    pub open spec fn entries_of(s: Seq<(String, PrimitiveFunction<F>)>) -> Map<
        Seq<char>,
        PrimitiveFunction<F>,
    >
        decreases s.len(),
    {
        if s.len() == 0 {
            Map::empty()
        } else {
            Self::entries_of(s.drop_last()).insert(s.last().0@, s.last().1)
        }
    }

    /// The registry contents as a map from name to callable.
    pub closed spec fn as_map(&self) -> Map<Seq<char>, PrimitiveFunction<F>> {
        Self::entries_of(self.functions@)
    }

    /// An empty registry.
    pub fn new() -> (r: Self)
        ensures
            r.as_map() == Map::<Seq<char>, PrimitiveFunction<F>>::empty(),
    {
        Context { functions: Vec::new() }
    }

    /// Registers `function` under `name` as a primitive one-real-parameter
    /// callable, returning the extended registry; a later registration for
    /// the same name wins.
    pub fn function(self, name: String, function: F) -> (r: Self)
        ensures
            r.as_map() == self.as_map().insert(
                name@,
                (PrimitiveFunction { name: name, function: function }),
            ),
    {
        let mut context = self;
        let key = name.clone();
        context.functions.push((key, PrimitiveFunction { name: name, function: function }));
        proof {
            assert(context.functions@.drop_last() =~= self.functions@);
        }
        context
    }

    /// Looks a name up in the registry: the callable registered last under
    /// that name, or nothing for an unregistered name.
    pub fn lookup(&self, name: &str) -> (r: Option<&PrimitiveFunction<F>>)
        ensures
            match r {
                Some(c) => self.as_map().dom().contains(name@) && *c == self.as_map()[name@],
                None => !self.as_map().dom().contains(name@),
            },
    {
        let n = self.functions.len();
        proof {
            assert(self.functions@.take(n as int) =~= self.functions@);
        }
        let mut i: usize = n;
        while i > 0
            invariant
                i <= n,
                n == self.functions@.len(),
                (Self::entries_of(self.functions@).dom().contains(name@) <==> Self::entries_of(
                    self.functions@.take(i as int),
                ).dom().contains(name@)),
                Self::entries_of(self.functions@).dom().contains(name@)
                    ==> Self::entries_of(self.functions@)[name@] == Self::entries_of(
                    self.functions@.take(i as int),
                )[name@],
            decreases i,
        {
            i = i - 1;
            proof {
                assert(self.functions@.take(i as int + 1).drop_last() =~= self.functions@.take(
                    i as int,
                ));
                assert(self.functions@.take(i as int + 1).last() == self.functions@[i as int]);
            }
            let pair = &self.functions[i];
            if str_eq(pair.0.as_str(), name) {
                return Some(&pair.1);
            }
        }
        None
    }
}

} // verus!
