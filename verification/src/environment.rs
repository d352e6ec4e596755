//! The chain of scopes in which variables live.

use vstd::prelude::*;
use crate::error::RuntimeError;
use crate::expr::Value;
use crate::token::Token;

verus! {

/// The bindings of one scope.
pub type Scope = Map<Seq<char>, Value>;

/// A chain of scopes, the innermost first and the root last.
pub type Chain = Seq<Scope>;

/// The index of the innermost scope of `chain` that binds `name`, or the
/// length of the chain where no scope does.
pub open spec fn holder(chain: Chain, name: Seq<char>) -> int
    decreases chain.len(),
{
    if chain.len() == 0 {
        0
    } else if chain[0].contains_key(name) {
        0
    } else {
        1 + holder(chain.drop_first(), name)
    }
}

/// Some scope of the chain binds `name`.
pub open spec fn bound(chain: Chain, name: Seq<char>) -> bool {
    holder(chain, name) < chain.len()
}

/// What a read of `name` finds: the value in the innermost scope that binds it.
pub open spec fn lookup(chain: Chain, name: Seq<char>) -> Option<Value> {
    if bound(chain, name) {
        Some(chain[holder(chain, name)][name])
    } else {
        None
    }
}

/// What a read of the variable `name` gives: its value, or the failure that
/// names the token.
pub open spec fn read(chain: Chain, name: Token) -> Result<Value, RuntimeError> {
    match lookup(chain, name.lexeme@) {
        Some(value) => Ok(value),
        None => Err(RuntimeError::UndefinedVariable { name }),
    }
}

/// The chain after `name` was declared in its innermost scope.
pub open spec fn declared(chain: Chain, name: Seq<char>, value: Value) -> Chain
    recommends
        chain.len() > 0,
{
    chain.update(0, chain[0].insert(name, value))
}

/// The chain after an assignment to `name`: the innermost scope that binds it
/// holds the new value, and nothing else has changed. Where no scope binds
/// it, the chain is as it was.
pub open spec fn assigned(chain: Chain, name: Seq<char>, value: Value) -> Chain {
    if bound(chain, name) {
        chain.update(holder(chain, name), chain[holder(chain, name)].insert(name, value))
    } else {
        chain
    }
}

/// `holder` is the first index whose scope binds the name.
pub proof fn lemma_holder(chain: Chain, name: Seq<char>)
    ensures
        0 <= holder(chain, name) <= chain.len(),
        bound(chain, name) ==> chain[holder(chain, name)].contains_key(name),
        forall|i: int| 0 <= i < holder(chain, name) ==> !(#[trigger] chain[i]).contains_key(name),
    decreases chain.len(),
{
    if chain.len() > 0 && !chain[0].contains_key(name) {
        let rest = chain.drop_first();
        lemma_holder(rest, name);
        assert forall|i: int| 0 <= i < holder(chain, name) implies !(#[trigger] chain[i])
            .contains_key(name) by {
            if i > 0 {
                assert(chain[i] == rest[i - 1]);
            }
        }
    }
}

/// A name is bound in a chain exactly when one of its scopes binds it.
pub proof fn lemma_bound(chain: Chain, name: Seq<char>)
    ensures
        bound(chain, name) <==> exists|i: int|
            0 <= i < chain.len() && (#[trigger] chain[i]).contains_key(name),
{
    lemma_holder(chain, name);
}

/// An assignment to a bound name changes the scope that holds the name, and
/// that scope only: the name has the new value there, every other scope is
/// as it was, and no scope binds a name that it did not bind before. A read
/// of the name then finds the new value.
pub proof fn lemma_assignment_updates_holder(chain: Chain, name: Seq<char>, value: Value)
    requires
        bound(chain, name),
    ensures
        assigned(chain, name, value).len() == chain.len(),
        assigned(chain, name, value)[holder(chain, name)] == chain[holder(chain, name)].insert(
            name,
            value,
        ),
        forall|i: int|
            0 <= i < chain.len() && i != holder(chain, name) ==> #[trigger] assigned(
                chain,
                name,
                value,
            )[i] == chain[i],
        forall|i: int|
            0 <= i < chain.len() ==> (#[trigger] assigned(chain, name, value)[i]).dom()
                == chain[i].dom(),
        holder(assigned(chain, name, value), name) == holder(chain, name),
        lookup(assigned(chain, name, value), name) == Some(value),
{
    lemma_holder(chain, name);
    let after = assigned(chain, name, value);
    let at: int = holder(chain, name);
    assert forall|i: int| 0 <= i < chain.len() implies (#[trigger] after[i]).dom()
        == chain[i].dom() by {
        if i == at {
            assert(after[i].dom() =~= chain[i].dom());
        }
    }
    lemma_holder_is(after, name, at);
}

/// An assignment to a name that no scope binds changes nothing.
pub proof fn lemma_assignment_binds_nothing(chain: Chain, name: Seq<char>, value: Value)
    requires
        !bound(chain, name),
    ensures
        assigned(chain, name, value) == chain,
        lookup(assigned(chain, name, value), name) is None,
{
}

/// An assignment leaves every other name as it was.
pub proof fn lemma_assignment_keeps_others(
    chain: Chain,
    name: Seq<char>,
    value: Value,
    other: Seq<char>,
)
    requires
        other != name,
    ensures
        holder(assigned(chain, name, value), other) == holder(chain, other),
        lookup(assigned(chain, name, value), other) == lookup(chain, other),
{
    if bound(chain, name) {
        lemma_holder(chain, name);
        lemma_holder(chain, other);
        lemma_assignment_updates_holder(chain, name, value);
        let after = assigned(chain, name, value);
        assert forall|i: int| 0 <= i < holder(chain, other) implies !(#[trigger] after[i])
            .contains_key(other) by {
            assert(after[i].dom() == chain[i].dom());
            assert(!chain[i].contains_key(other));
        }
        if bound(chain, other) {
            assert(after[holder(chain, other)].dom() == chain[holder(chain, other)].dom());
        }
        lemma_holder_is(after, other, holder(chain, other));
    }
}

/// A declaration binds the name in the innermost scope, where a read finds
/// it first, and leaves every other name and every other scope as it was.
pub proof fn lemma_declaration(chain: Chain, name: Seq<char>, value: Value, other: Seq<char>)
    requires
        chain.len() > 0,
        other != name,
    ensures
        declared(chain, name, value).len() == chain.len(),
        holder(declared(chain, name, value), name) == 0,
        lookup(declared(chain, name, value), name) == Some(value),
        forall|i: int|
            0 < i < chain.len() ==> #[trigger] declared(chain, name, value)[i] == chain[i],
        lookup(declared(chain, name, value), other) == lookup(chain, other),
{
    let after = declared(chain, name, value);
    lemma_holder(chain, other);
    assert forall|i: int| 0 <= i < holder(chain, other) implies !(#[trigger] after[i]).contains_key(
        other,
    ) by {
        assert(!chain[i].contains_key(other));
    }
    lemma_holder_is(after, other, holder(chain, other));
}

/// An index whose scope binds the name, with no scope before it that does,
/// is the holder of the name; so is the length of the chain where no scope
/// binds the name.
pub proof fn lemma_holder_is(chain: Chain, name: Seq<char>, at: int)
    requires
        0 <= at <= chain.len(),
        at < chain.len() ==> chain[at].contains_key(name),
        forall|i: int| 0 <= i < at ==> !(#[trigger] chain[i]).contains_key(name),
    ensures
        holder(chain, name) == at,
    decreases chain.len(),
{
    if chain.len() > 0 && at > 0 {
        let rest = chain.drop_first();
        assert(!chain[0].contains_key(name));
        assert forall|i: int| 0 <= i < at - 1 implies !(#[trigger] rest[i]).contains_key(name) by {
            assert(rest[i] == chain[i + 1]);
        }
        lemma_holder_is(rest, name, at - 1);
    }
}

/// The index of the first entry of `entries` from `from` on whose name is
/// `name`, or the length where there is none.
pub open spec fn first_entry(entries: Seq<(String, Value)>, name: Seq<char>, from: int) -> int
    decreases entries.len() - from,
{
    if from < 0 || from >= entries.len() {
        entries.len() as int
    } else if entries[from].0@ == name {
        from
    } else {
        first_entry(entries, name, from + 1)
    }
}

/// The bindings that a list of entries stands for. A name is bound to the
/// value of its first entry.
pub open spec fn scope_of(entries: Seq<(String, Value)>) -> Scope {
    Map::new(
        |name: Seq<char>| first_entry(entries, name, 0) < entries.len(),
        |name: Seq<char>| entries[first_entry(entries, name, 0)].1,
    )
}

proof fn lemma_first_entry(entries: Seq<(String, Value)>, name: Seq<char>, from: int)
    requires
        0 <= from <= entries.len(),
    ensures
        from <= first_entry(entries, name, from) <= entries.len(),
        first_entry(entries, name, from) < entries.len() ==> entries[first_entry(
            entries,
            name,
            from,
        )].0@ == name,
        forall|i: int|
            from <= i < first_entry(entries, name, from) ==> (#[trigger] entries[i]).0@ != name,
    decreases entries.len() - from,
{
    if from < entries.len() && entries[from].0@ != name {
        lemma_first_entry(entries, name, from + 1);
    }
}

/// An index at which `name` stands, with no entry of that name before it, is
/// the first entry of `name`.
proof fn lemma_first_entry_is(entries: Seq<(String, Value)>, name: Seq<char>, from: int, at: int)
    requires
        0 <= from <= at <= entries.len(),
        at < entries.len() ==> entries[at].0@ == name,
        forall|i: int| from <= i < at ==> (#[trigger] entries[i]).0@ != name,
    ensures
        first_entry(entries, name, from) == at,
    decreases at - from,
{
    if from < at {
        lemma_first_entry_is(entries, name, from + 1, at);
    }
}

/// Writing a value at the first entry of a name binds the name to it and
/// leaves the other names as they were.
proof fn lemma_scope_after_set(
    entries: Seq<(String, Value)>,
    at: int,
    key: String,
    value: Value,
)
    requires
        0 <= at < entries.len(),
        first_entry(entries, key@, 0) == at,
    ensures
        scope_of(entries.update(at, (key, value))) == scope_of(entries).insert(key@, value),
{
    let after = entries.update(at, (key, value));
    let wanted = scope_of(entries).insert(key@, value);
    lemma_first_entry(entries, key@, 0);
    assert forall|name: Seq<char>|
        (#[trigger] scope_of(after).contains_key(name)) == wanted.contains_key(name) && (
        wanted.contains_key(name) ==> scope_of(after)[name] == wanted[name]) by {
        lemma_first_entry(entries, name, 0);
        let f: int = first_entry(entries, name, 0);
        assert forall|i: int| 0 <= i < f implies (#[trigger] after[i]).0@ != name by {
            assert(entries[i].0@ != name);
        }
        lemma_first_entry_is(after, name, 0, f);
    }
    assert(scope_of(after) =~= wanted);
}

/// Adding an entry for a name that has none binds the name and leaves the
/// other names as they were.
proof fn lemma_scope_after_push(entries: Seq<(String, Value)>, key: String, value: Value)
    requires
        first_entry(entries, key@, 0) == entries.len(),
    ensures
        scope_of(entries.push((key, value))) == scope_of(entries).insert(key@, value),
{
    let after = entries.push((key, value));
    let wanted = scope_of(entries).insert(key@, value);
    assert forall|name: Seq<char>|
        (#[trigger] scope_of(after).contains_key(name)) == wanted.contains_key(name) && (
        wanted.contains_key(name) ==> scope_of(after)[name] == wanted[name]) by {
        lemma_first_entry(entries, name, 0);
        let f: int = first_entry(entries, name, 0);
        assert forall|i: int| 0 <= i < f implies (#[trigger] after[i]).0@ != name by {
            assert(entries[i].0@ != name);
        }
        if f < entries.len() {
            lemma_first_entry_is(after, name, 0, f);
        } else if name == key@ {
            lemma_first_entry_is(after, name, 0, f);
        } else {
            lemma_first_entry_is(after, name, 0, f + 1);
        }
    }
    assert(scope_of(after) =~= wanted);
}

/// One scope and, through `enclosing`, the scopes around it.
pub struct Environment {
    values: Vec<(String, Value)>,
    enclosing: Option<Box<Environment>>,
}

impl Environment {
    /// The chain of scopes that starts here: this scope first, the root last.
    pub closed spec fn chain(self) -> Chain
        decreases self,
    {
        match self.enclosing {
            None => seq![scope_of(self.values@)],
            Some(outer) => seq![scope_of(self.values@)] + outer.chain(),
        }
    }

    /// A chain holds its own scope at least.
    pub proof fn lemma_chain_not_empty(self)
        ensures
            self.chain().len() > 0,
    {
    }

    /// A root scope: no bindings and nothing around it.
    pub fn new() -> (r: Environment)
        ensures
            r.chain() == seq![Map::<Seq<char>, Value>::empty()],
    {
        let r = Environment { values: Vec::new(), enclosing: None };
        proof {
            assert(scope_of(r.values@) =~= Map::<Seq<char>, Value>::empty());
        }
        r
    }

    /// A fresh scope inside `enclosing`.
    pub fn from(enclosing: Environment) -> (r: Environment)
        ensures
            r.chain() == seq![Map::<Seq<char>, Value>::empty()] + enclosing.chain(),
    {
        let r = Environment { values: Vec::new(), enclosing: Some(Box::new(enclosing)) };
        proof {
            assert(scope_of(r.values@) =~= Map::<Seq<char>, Value>::empty());
        }
        r
    }

    /// Gives up the innermost scope and hands back the chain around it, if
    /// there is one.
    pub fn into_enclosing(self) -> (r: Option<Environment>)
        ensures
            match r {
                Some(outer) => self.chain().len() > 1 && outer.chain() == self.chain().drop_first(),
                None => self.chain().len() == 1,
            },
    {
        match self.enclosing {
            Some(outer) => {
                proof {
                    outer.lemma_chain_not_empty();
                    assert(self.chain().drop_first() =~= outer.chain());
                }
                Some(*outer)
            },
            None => None,
        }
    }

    fn find(&self, key: &String) -> (at: usize)
        ensures
            at == first_entry(self.values@, key@, 0),
            at <= self.values@.len(),
    {
        let mut i: usize = 0;
        while i < self.values.len()
            invariant
                0 <= i <= self.values@.len(),
                first_entry(self.values@, key@, 0) == first_entry(self.values@, key@, i as int),
            decreases self.values@.len() - i,
        {
            if self.values[i].0.eq(key) {
                return i;
            }
            i += 1;
        }
        i
    }

    /// Reads a variable: the value in the innermost scope that binds the
    /// name. A name that no scope binds is an undefined variable.
    pub fn get(&self, name: &Token) -> (r: Result<Value, RuntimeError>)
        ensures
            r == read(self.chain(), *name),
        decreases self,
    {
        let at: usize = self.find(&name.lexeme);
        if at < self.values.len() {
            proof {
                lemma_first_entry(self.values@, name.lexeme@, 0);
                assert(self.chain()[0] == scope_of(self.values@));
            }
            Ok(self.values[at].1.clone())
        } else {
            proof {
                assert(self.chain()[0] == scope_of(self.values@));
            }
            match &self.enclosing {
                Some(outer) => {
                    proof {
                        assert(self.chain().drop_first() =~= outer.chain());
                        lemma_holder(outer.chain(), name.lexeme@);
                    }
                    outer.get(name)
                },
                None => {
                    proof {
                        assert(self.chain().drop_first() =~= Seq::<Scope>::empty());
                    }
                    Err(RuntimeError::UndefinedVariable { name: name.clone() })
                },
            }
        }
    }

    /// Declares a variable in the innermost scope. A name that the scope
    /// binds already is bound anew.
    pub fn define(&mut self, name: &str, value: Value)
        ensures
            final(self).chain() == declared(old(self).chain(), name@, value),
    {
        let key: String = name.to_owned();
        let at: usize = self.find(&key);
        proof {
            if at < self.values@.len() {
                lemma_scope_after_set(self.values@, at as int, key, value);
            } else {
                lemma_scope_after_push(self.values@, key, value);
            }
        }
        if at < self.values.len() {
            self.values.set(at, (key, value));
        } else {
            self.values.push((key, value));
        }
        proof {
            assert(final(self).chain() =~= declared(old(self).chain(), name@, value));
        }
    }

    /// Assigns to a variable: the innermost scope that binds the name gets
    /// the value. A name that no scope binds is an undefined variable, and
    /// nothing is bound.
    pub fn assign(&mut self, name: &Token, value: Value) -> (r: Result<(), RuntimeError>)
        ensures
            final(self).chain() == assigned(old(self).chain(), name.lexeme@, value),
            r == (if bound(old(self).chain(), name.lexeme@) {
                Ok::<(), RuntimeError>(())
            } else {
                Err::<(), RuntimeError>(RuntimeError::UndefinedVariable { name: *name })
            }),
        decreases *old(self),
    {
        let at: usize = self.find(&name.lexeme);
        let ghost before = self.chain();
        let ghost here = scope_of(self.values@);
        proof {
            assert(before[0] == here);
            lemma_first_entry(self.values@, name.lexeme@, 0);
        }
        if at < self.values.len() {
            let key: String = name.lexeme.clone();
            proof {
                lemma_scope_after_set(self.values@, at as int, key, value);
            }
            self.values.set(at, (key, value));
            proof {
                assert(final(self).chain() =~= assigned(before, name.lexeme@, value));
            }
            Ok(())
        } else {
            match &mut self.enclosing {
                Some(outer) => {
                    let ghost around = outer.chain();
                    proof {
                        assert(before.drop_first() =~= around);
                        assert(before =~= seq![here] + around);
                        lemma_holder(around, name.lexeme@);
                    }
                    let r = outer.assign(name, value);
                    proof {
                        let inner = assigned(around, name.lexeme@, value);
                        assert(outer.chain() == inner);
                        assert(assigned(before, name.lexeme@, value) =~= seq![here] + inner);
                        assert(final(self).chain() =~= seq![here] + inner);
                    }
                    r
                },
                None => {
                    proof {
                        assert(before.drop_first() =~= Seq::<Scope>::empty());
                        assert(holder(before.drop_first(), name.lexeme@) == 0);
                        assert(!bound(before, name.lexeme@));
                    }
                    Err(RuntimeError::UndefinedVariable { name: name.clone() })
                },
            }
        }
    }
}

} // verus!
