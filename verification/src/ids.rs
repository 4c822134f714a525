//! Names for the procedures of expressions: one name for every distinct
//! expression, however often it occurs.
use vstd::prelude::*;
use vstd::string::*;
use crate::expr::{ExprModel, FPestExpr};
use crate::text::{lemma_padded_injective, padded, padded_text};

verus! {

/// The first place from `from` on at which the list holds the expression.
pub open spec fn index_from(keys: Seq<ExprModel>, e: ExprModel, from: nat) -> Option<nat>
    decreases keys.len() - from,
{
    if from >= keys.len() {
        None
    } else if keys[from as int] == e {
        Some(from)
    } else {
        index_from(keys, e, from + 1)
    }
}

/// The number of an expression: its place in the list, or the next free
/// place where the list does not hold it.
pub open spec fn number_of(keys: Seq<ExprModel>, e: ExprModel) -> nat {
    match index_from(keys, e, 0) {
        Some(k) => k,
        None => keys.len(),
    }
}

/// The list after an expression was named: a reference to a rule and an
/// expression that the list holds leave it as it is, any other
/// expression is added at its end.
pub open spec fn registered(keys: Seq<ExprModel>, e: ExprModel) -> Seq<ExprModel> {
    if e is Ident || index_from(keys, e, 0) is Some {
        keys
    } else {
        keys.push(e)
    }
}

/// The name of an expression: a reference to a rule has the name of the
/// rule, any other expression has `anon_` and its number, in four digits
/// at least.
pub open spec fn id_text(keys: Seq<ExprModel>, e: ExprModel) -> Seq<char> {
    match e {
        ExprModel::Ident(name) => name,
        _ => "anon_"@ + padded_text(number_of(keys, e), 4),
    }
}

/// No expression stands twice in the list.
pub open spec fn distinct(keys: Seq<ExprModel>) -> bool {
    forall|i: int, j: int| 0 <= i < j < keys.len() ==> keys[i] != keys[j]
}

/// What a found place says of the list.
pub proof fn lemma_index_from(keys: Seq<ExprModel>, e: ExprModel, from: nat)
    ensures
        match index_from(keys, e, from) {
            Some(k) => from <= k < keys.len() && keys[k as int] == e && forall|j: int|
                from <= j < k ==> keys[j] != e,
            None => forall|j: int| from <= j < keys.len() ==> keys[j] != e,
        },
    decreases keys.len() - from,
{
    if from < keys.len() && keys[from as int] != e {
        lemma_index_from(keys, e, from + 1);
    }
}

/// Naming an expression a second time gives the name of the first time,
/// and leaves the list as the first time left it.
pub proof fn lemma_id_stable(keys: Seq<ExprModel>, e: ExprModel)
    ensures
        id_text(registered(keys, e), e) == id_text(keys, e),
        registered(registered(keys, e), e) == registered(keys, e),
{
    lemma_index_from(keys, e, 0);
    lemma_index_from(registered(keys, e), e, 0);
    if !(e is Ident) && index_from(keys, e, 0) is None {
        let next = keys.push(e);
        assert(next[keys.len() as int] == e);
        assert(forall|j: int| 0 <= j < keys.len() ==> next[j] == keys[j]);
    }
}

/// In a list that holds no expression twice, two expressions other than
/// references to rules have the same number only if they are the same.
pub proof fn lemma_numbers_distinct(keys: Seq<ExprModel>, a: ExprModel, b: ExprModel)
    requires
        distinct(keys),
        a != b,
    ensures
        number_of(registered(keys, a), a) != number_of(registered(keys, a), b) || (a is Ident),
{
    lemma_index_from(keys, a, 0);
    lemma_index_from(registered(keys, a), a, 0);
    lemma_index_from(registered(keys, a), b, 0);
    if !(a is Ident) && index_from(keys, a, 0) is None {
        let next = keys.push(a);
        assert(next[keys.len() as int] == a);
    }
}

/// In a list that holds no expression twice, two different expressions
/// other than references to rules have different names.
pub proof fn lemma_names_distinct(keys: Seq<ExprModel>, a: ExprModel, b: ExprModel)
    requires
        distinct(keys),
        a != b,
        !(a is Ident),
        !(b is Ident),
    ensures
        id_text(registered(keys, a), a) != id_text(registered(keys, a), b),
{
    let named = registered(keys, a);
    lemma_numbers_distinct(keys, a, b);
    let x = padded_text(number_of(named, a), 4);
    let y = padded_text(number_of(named, b), 4);
    if id_text(named, a) == id_text(named, b) {
        let head = "anon_"@;
        assert(x =~= (head + x).subrange(head.len() as int, (head + x).len() as int));
        assert(y =~= (head + y).subrange(head.len() as int, (head + y).len() as int));
        lemma_padded_injective(number_of(named, a), number_of(named, b), 4);
    }
}

/// Assigns names to expressions.
#[derive(Debug)]
pub struct IdRegistry {
    ids: Vec<FPestExpr>,
    next: usize,
}

impl View for IdRegistry {
    type V = Seq<ExprModel>;

    closed spec fn view(&self) -> Seq<ExprModel> {
        Seq::new(self.ids@.len(), |i: int| self.ids@[i]@)
    }
}

impl IdRegistry {
    #[verifier::type_invariant]
    spec fn well_formed(self) -> bool {
        self.next == self.ids@.len() && distinct(self@)
    }

    /// A registry that has named nothing yet.
    pub fn new() -> (r: IdRegistry)
        ensures
            r@ == Seq::<ExprModel>::empty(),
    {
        let r = IdRegistry { ids: Vec::new(), next: 0 };
        assert(r@ =~= Seq::<ExprModel>::empty());
        r
    }

    /// The number of expressions that have a number. No expression stands
    /// twice among them.
    pub fn len(&self) -> (n: usize)
        ensures
            n == self@.len(),
            distinct(self@),
    {
        proof {
            use_type_invariant(self);
        }
        self.next
    }

    /// The name of an expression. Two expressions of the same structure
    /// have the same name.
    pub fn id(&mut self, expr: &FPestExpr) -> (r: String)
        ensures
            r@ == id_text(old(self)@, expr@),
            final(self)@ == registered(old(self)@, expr@),
    {
        proof {
            use_type_invariant(&*self);
        }
        if let FPestExpr::Ident(ident) = expr {
            return ident.clone();
        }
        let ghost keys = self@;
        let mut k: usize = 0;
        let mut found = false;
        while k < self.ids.len() && !found
            invariant
                k <= self.ids.len(),
                self@ == keys,
                self.ids@.len() == keys.len(),
                self.next == self.ids@.len(),
                distinct(keys),
                index_from(keys, expr@, 0) == index_from(keys, expr@, k as nat),
                found ==> k < keys.len() && keys[k as int] == expr@,
            decreases self.ids.len() - k, (if found { 0nat } else { 1nat }),
        {
            assert(keys[k as int] == self.ids@[k as int]@);
            if self.ids[k].same(expr) {
                found = true;
            } else {
                k += 1;
            }
        }
        if !found {
            let mut taken = IdRegistry::new();
            core::mem::swap(self, &mut taken);
            let IdRegistry { ids, next: _ } = taken;
            let mut ids = ids;
            ids.push(expr.copy());
            let next = ids.len();
            proof {
                lemma_index_from(keys, expr@, 0);
                let grown = Seq::new(ids@.len(), |i: int| ids@[i]@);
                assert(grown =~= keys.push(expr@));
                assert forall|i: int, j: int| 0 <= i < j < grown.len() implies grown[i]
                    != grown[j] by {
                    if j < keys.len() {
                        assert(keys[i] != keys[j]);
                    }
                }
            }
            *self = IdRegistry { ids, next };
        }
        let mut r = String::from_str("anon_");
        r.append(padded(k, 4).as_str());
        r
    }
}

} // verus!
