//! The symbol environment: a stack of lexical scopes, each numbered, each
//! binding names to a folded constant or to a variable's storage slot.
use vstd::prelude::*;

verus! {

#[derive(Debug, Clone, Copy, PartialEq, Eq, Structural)]
pub enum IdElement {
    Const(i32),
    Var,
}

/// One scope: its number and its bindings, no name twice.
#[derive(Debug)]
pub struct Scope {
    pub offset: u64,
    pub entries: Vec<(String, IdElement)>,
}

#[derive(Debug)]
pub struct IdTable {
    pub scopes: Vec<Scope>,
}

/// A scope as the contracts see it.
pub struct ScopeV {
    pub offset: u64,
    pub entries: Seq<(Seq<char>, IdElement)>,
}

pub open spec fn scope_view(s: Scope) -> ScopeV {
    ScopeV { offset: s.offset, entries: s.entries@.map_values(|e: (String, IdElement)| (e.0@, e.1)) }
}

impl View for IdTable {
    type V = Seq<ScopeV>;

    open spec fn view(&self) -> Seq<ScopeV> {
        self.scopes@.map_values(|s: Scope| scope_view(s))
    }
}

/// An empty scope numbered `offset`.
pub open spec fn empty_scope(offset: u64) -> ScopeV {
    ScopeV { offset, entries: Seq::empty() }
}

/// The binding of `name` among `es`, if any.
pub open spec fn find_entry(es: Seq<(Seq<char>, IdElement)>, name: Seq<char>) -> Option<IdElement>
    decreases es.len(),
{
    if es.len() == 0 {
        None
    } else if es.last().0 == name {
        Some(es.last().1)
    } else {
        find_entry(es.drop_last(), name)
    }
}

/// The binding of `name` seen from the innermost scope outward, with the
/// number of the scope that holds it.
pub open spec fn lookup_scopes(sc: Seq<ScopeV>, name: Seq<char>) -> Option<(IdElement, u64)>
    decreases sc.len(),
{
    if sc.len() == 0 {
        None
    } else {
        match find_entry(sc.last().entries, name) {
            Some(e) => Some((e, sc.last().offset)),
            None => lookup_scopes(sc.drop_last(), name),
        }
    }
}

/// `sc` with `name` bound to `v` in its innermost scope.
pub open spec fn bind(sc: Seq<ScopeV>, name: Seq<char>, v: IdElement) -> Seq<ScopeV> {
    sc.drop_last().push(ScopeV { offset: sc.last().offset, entries: sc.last().entries.push((name, v)) })
}

/// Whether the innermost scope of `sc` already binds `name`.
pub open spec fn bound_here(sc: Seq<ScopeV>, name: Seq<char>) -> bool {
    find_entry(sc.last().entries, name) is Some
}

impl IdTable {
    /// The table never is without a scope.
    pub open spec fn wf(&self) -> bool {
        self@.len() > 0
    }

    /// A table with one empty scope numbered `offset`.
    pub fn new(offset: u64) -> (r: IdTable)
        ensures
            r@ == seq![empty_scope(offset)],
    {
        let mut scopes: Vec<Scope> = Vec::new();
        scopes.push(Scope { offset, entries: Vec::new() });
        let r = IdTable { scopes };
        assert(r@ =~= seq![empty_scope(offset)]) by {
            assert(scope_view(r.scopes@[0]).entries =~= Seq::<(Seq<char>, IdElement)>::empty());
        }
        r
    }

    /// The number of the innermost scope.
    pub fn offset(&self) -> (r: u64)
        requires
            self.wf(),
        ensures
            r == self@.last().offset,
    {
        self.scopes[self.scopes.len() - 1].offset
    }

    /// Opens a new innermost scope numbered `offset`.
    pub fn push_scope(&mut self, offset: u64)
        ensures
            final(self)@ == old(self)@.push(empty_scope(offset)),
    {
        let s = Scope { offset, entries: Vec::new() };
        assert(scope_view(s) == empty_scope(offset)) by {
            assert(scope_view(s).entries =~= Seq::<(Seq<char>, IdElement)>::empty());
        }
        self.scopes.push(s);
        assert(self@ =~= old(self)@.push(empty_scope(offset)));
    }

    /// Closes the innermost scope; the outermost one stays.
    pub fn pop_scope(&mut self)
        requires
            old(self)@.len() > 1,
        ensures
            final(self)@ == old(self)@.drop_last(),
    {
        self.scopes.pop();
        assert(self@ =~= old(self)@.drop_last());
    }

    /// Binds `k` to `v` in the innermost scope. Returns false, and changes
    /// nothing, where that scope already binds `k`.
    pub fn insert(&mut self, k: String, v: IdElement) -> (r: bool)
        requires
            old(self).wf(),
        ensures
            r == !bound_here(old(self)@, k@),
            r ==> final(self)@ == bind(old(self)@, k@, v),
            !r ==> final(self)@ == old(self)@,
            final(self).wf(),
    {
        let last = self.scopes.len() - 1;
        if self.find_in(last, &k).is_some() {
            return false;
        }
        let ghost kv = k@;
        let mut scope = self.scopes.pop().unwrap();
        let ghost before = scope_view(scope);
        scope.entries.push((k, v));
        assert(scope_view(scope).entries =~= before.entries.push((kv, v)));
        self.scopes.push(scope);
        assert(self@ =~= bind(old(self)@, kv, v));
        true
    }

    /// The binding of `k` in scope `i` alone.
    fn find_in(&self, i: usize, k: &String) -> (r: Option<IdElement>)
        requires
            i < self.scopes@.len(),
        ensures
            r == find_entry(self@[i as int].entries, k@),
    {
        let es = &self.scopes[i].entries;
        let ghost all = self@[i as int].entries;
        assert(all =~= es@.map_values(|e: (String, IdElement)| (e.0@, e.1)));
        let mut j: usize = es.len();
        assert(all.subrange(0, j as int) =~= all);
        while j > 0
            invariant
                j <= es@.len(),
                i < self.scopes@.len(),
                all == self@[i as int].entries,
                all.len() == es@.len(),
                forall|m: int| 0 <= m < es@.len() ==> #[trigger] all[m] == (es@[m].0@, es@[m].1),
                find_entry(all, k@) == find_entry(all.subrange(0, j as int), k@),
            decreases j,
        {
            assert(all.subrange(0, j as int).drop_last() =~= all.subrange(0, j - 1));
            assert(all.subrange(0, j as int).last() == all[j - 1]);
            if es[j - 1].0 == *k {
                return Some(es[j - 1].1);
            }
            j = j - 1;
        }
        None
    }

    /// The binding of `k`, innermost scope first, with the number of the
    /// scope that holds it; `None` where no scope binds `k`.
    pub fn get(&self, k: &String) -> (r: Option<(IdElement, u64)>)
        ensures
            r == lookup_scopes(self@, k@),
    {
        let mut i: usize = self.scopes.len();
        assert(self@.subrange(0, i as int) =~= self@);
        while i > 0
            invariant
                i <= self.scopes@.len(),
                lookup_scopes(self@, k@) == lookup_scopes(self@.subrange(0, i as int), k@),
            decreases i,
        {
            let ghost sub = self@.subrange(0, i as int);
            assert(sub.drop_last() =~= self@.subrange(0, i - 1));
            assert(sub.last() == self@[i - 1]);
            match self.find_in(i - 1, k) {
                Some(e) => {
                    return Some((e, self.scopes[i - 1].offset));
                },
                None => {},
            }
            i = i - 1;
        }
        None
    }
}

} // verus!
