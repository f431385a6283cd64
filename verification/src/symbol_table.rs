use vstd::prelude::*;

use crate::types::Type;

verus! {

/// The model of one scope frame: name/type bindings in declaration order.
/// A later entry for the same name shadows an earlier one.
pub open spec fn frame_view(f: Seq<(String, Type)>) -> Seq<(Seq<char>, Type)> {
    Seq::new(f.len(), |k: int| (f[k].0@, f[k].1))
}

/// Look a name up in one frame, newest entry first.
pub open spec fn frame_lookup(f: Seq<(Seq<char>, Type)>, name: Seq<char>) -> Option<Type>
    decreases f.len(),
{
    if f.len() == 0 {
        None
    } else if f.last().0 == name {
        Some(f.last().1)
    } else {
        frame_lookup(f.drop_last(), name)
    }
}

/// Look a name up through the scope chain, innermost frame first.
pub open spec fn chain_lookup(scopes: Seq<Seq<(Seq<char>, Type)>>, name: Seq<char>) -> Option<
    Type,
>
    decreases scopes.len(),
{
    if scopes.len() == 0 {
        None
    } else {
        match frame_lookup(scopes.last(), name) {
            Some(t) => Some(t),
            None => chain_lookup(scopes.drop_last(), name),
        }
    }
}

/// A stack of scope frames mapping names to types. The last frame is the
/// current (innermost) scope; lookups fall through to outer frames, and
/// declarations only ever touch the current one.
pub struct SymbolTable {
    pub scopes: Vec<Vec<(String, Type)>>,
}

impl View for SymbolTable {
    type V = Seq<Seq<(Seq<char>, Type)>>;

    open spec fn view(&self) -> Seq<Seq<(Seq<char>, Type)>> {
        Seq::new(self.scopes@.len(), |k: int| frame_view(self.scopes@[k]@))
    }
}

/// Look a name up in one frame, newest entry first.
#[verifier::loop_isolation(false)]
fn frame_get(frame: &Vec<(String, Type)>, identifier: &str) -> (r: Option<Type>)
    ensures
        r == frame_lookup(frame_view(frame@), identifier@),
{
    let key: String = identifier.to_owned();
    let mut e: usize = frame.len();
    proof {
        assert(frame_view(frame@).take(frame@.len() as int) =~= frame_view(frame@));
    }
    while e > 0
        invariant
            e <= frame@.len(),
            frame_lookup(frame_view(frame@), identifier@) == frame_lookup(
                frame_view(frame@).take(e as int),
                identifier@,
            ),
        decreases e,
    {
        e = e - 1;
        proof {
            let fv = frame_view(frame@);
            assert(fv.take(e as int + 1).last() == fv[e as int]);
            assert(fv.take(e as int + 1).drop_last() =~= fv.take(e as int));
        }
        let hit = frame[e].0.eq(&key);
        if hit {
            return Some(frame[e].1);
        }
    }
    None
}

impl SymbolTable {
    /// A fresh table: one empty scope.
    pub fn new() -> (r: Self)
        ensures
            r@ == seq![Seq::<(Seq<char>, Type)>::empty()],
    {
        let mut scopes: Vec<Vec<(String, Type)>> = Vec::new();
        scopes.push(Vec::new());
        let table = SymbolTable { scopes };
        proof {
            assert(table@ =~~= seq![Seq::<(Seq<char>, Type)>::empty()]);
        }
        table
    }

    /// Push a fresh innermost scope.
    pub fn enter_scope(&mut self)
        ensures
            final(self)@ == old(self)@.push(Seq::empty()),
    {
        self.scopes.push(Vec::new());
        proof {
            assert(self@ =~~= old(self)@.push(Seq::<(Seq<char>, Type)>::empty()));
        }
    }

    /// Pop the innermost scope; its declarations become invisible.
    pub fn exit_scope(&mut self)
        requires
            old(self)@.len() >= 1,
        ensures
            final(self)@ == old(self)@.drop_last(),
    {
        let _popped = self.scopes.pop();
        proof {
            assert(self@ =~~= old(self)@.drop_last());
        }
    }

    /// Bind a name in the current scope only.
    pub fn set(&mut self, identifier: &str, sym_type: Type)
        requires
            old(self)@.len() >= 1,
        ensures
            final(self)@ == old(self)@.update(
                old(self)@.len() - 1,
                old(self)@.last().push((identifier@, sym_type)),
            ),
    {
        let top = self.scopes.pop();
        let mut top = top.unwrap();
        top.push((identifier.to_owned(), sym_type));
        self.scopes.push(top);
        proof {
            assert(self@ =~~= old(self)@.update(
                old(self)@.len() - 1,
                old(self)@.last().push((identifier@, sym_type)),
            ));
        }
    }

    /// Look a name up, walking the scope chain outward; the first binding
    /// found wins.
    #[verifier::loop_isolation(false)]
    pub fn get(&self, identifier: &str) -> (r: Option<Type>)
        ensures
            r == chain_lookup(self@, identifier@),
    {
        let mut f: usize = self.scopes.len();
        proof {
            assert(self@.take(self@.len() as int) =~= self@);
        }
        while f > 0
            invariant
                f <= self@.len(),
                chain_lookup(self@, identifier@) == chain_lookup(
                    self@.take(f as int),
                    identifier@,
                ),
            decreases f,
        {
            f = f - 1;
            proof {
                assert(self@.take(f as int + 1).last() == self@[f as int]);
                assert(self@.take(f as int + 1).drop_last() =~= self@.take(f as int));
                assert(self@[f as int] == frame_view(self.scopes@[f as int]@));
            }
            match frame_get(&self.scopes[f], identifier) {
                Some(t) => {
                    return Some(t);
                },
                None => {},
            }
        }
        None
    }

    /// Whether a name is visible from the current scope.
    pub fn has(&self, identifier: &str) -> (r: bool)
        ensures
            r == chain_lookup(self@, identifier@).is_some(),
    {
        match self.get(identifier) {
            Some(_) => true,
            None => false,
        }
    }

    /// Whether a name is bound in the current scope itself, ignoring outer
    /// scopes; this is what makes a redeclaration.
    pub fn has_in_current(&self, identifier: &str) -> (r: bool)
        requires
            self@.len() >= 1,
        ensures
            r == frame_lookup(self@.last(), identifier@).is_some(),
    {
        let n: usize = self.scopes.len();
        proof {
            assert(self@.last() == frame_view(self.scopes@[n - 1]@));
        }
        match frame_get(&self.scopes[n - 1], identifier) {
            Some(_) => true,
            None => false,
        }
    }
}

} // verus!
