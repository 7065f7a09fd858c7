//! What lowering keeps for one module: the pool of string literals, the
//! counter of fresh names, and the stack of by-reference slots.

use vstd::prelude::*;
use vstd::string::*;
use crate::lower_lang::{DataField, Decl, DeclView, Type, decls_view};
use crate::text::{
    append_decimal, append_escaped, append_numeral, decimal, digits_value, escape_newlines,
    increment, is_numeral, lemma_decimal_digits, lemma_decimal_injective, lemma_digits_at_end,
    lemma_lex_irreflexive, lemma_lex_total, lemma_lex_transitive, lemma_single_digit, lex_lt,
    str_lt,
};

verus! {

/// A by-reference slot: the slot's name, the variable's name and its type.
pub type TmpRef = (String, String, Type);

/// The mathematical value of a by-reference slot.
pub type TmpRefView = (Seq<char>, Seq<char>, Type);

/// The state of lowering for one module.
pub struct LoweringCtx {
    prefix: String,
    pool: Vec<(String, String)>,
    tmp_refs: Vec<Vec<TmpRef>>,
    uniq: Vec<u8>,
}

/// The mathematical value of the state of lowering.
pub struct LoweringCtxView {
    /// The module's name, with which data symbols begin.
    pub prefix: Seq<char>,
    /// The interned literals, each with its symbol, in the order of the literals.
    pub pool: Seq<(Seq<char>, Seq<char>)>,
    /// The frames of by-reference slots, the innermost last.
    pub tmp_refs: Seq<Seq<TmpRefView>>,
    /// The number of fresh names handed out.
    pub uniq: nat,
}

/// The fresh name with the given tag and number.
pub open spec fn uniq_name(tag: Seq<char>, n: nat) -> Seq<char> {
    ".."@ + tag + ".."@ + decimal(n)
}

/// The symbol of the literal that was interned as the `n`-th of its module.
pub open spec fn data_symbol(prefix: Seq<char>, n: nat) -> Seq<char> {
    prefix + "_str"@ + decimal(n)
}

/// The literals of a pool come in strictly ascending order.
pub open spec fn pool_sorted(pool: Seq<(Seq<char>, Seq<char>)>) -> bool {
    forall|i: int, j: int| 0 <= i < j < pool.len() ==> lex_lt(pool[i].0, pool[j].0)
}

/// The symbol under which a pool holds a literal, if it holds it.
pub open spec fn pool_symbol(pool: Seq<(Seq<char>, Seq<char>)>, lit: Seq<char>) -> Option<
    Seq<char>,
>
    decreases pool.len(),
{
    if pool.len() == 0 {
        None
    } else if pool[0].0 == lit {
        Some(pool[0].1)
    } else {
        pool_symbol(pool.drop_first(), lit)
    }
}

/// The number of literals at the front of a pool that come before `lit`.
pub open spec fn insert_at(pool: Seq<(Seq<char>, Seq<char>)>, lit: Seq<char>) -> int
    decreases pool.len(),
{
    if pool.len() == 0 || !lex_lt(pool[0].0, lit) {
        0
    } else {
        1 + insert_at(pool.drop_first(), lit)
    }
}

/// Interning a literal: its symbol, and the state afterwards. A literal that
/// the pool holds keeps its symbol; a new one gets the symbol numbered by the
/// size of the pool, and its place in the order of the literals.
pub open spec fn interned(ctx: LoweringCtxView, lit: Seq<char>) -> (Seq<char>, LoweringCtxView) {
    match pool_symbol(ctx.pool, lit) {
        Some(symbol) => (symbol, ctx),
        None => {
            let symbol = data_symbol(ctx.prefix, ctx.pool.len());
            (
                symbol,
                LoweringCtxView {
                    pool: ctx.pool.insert(insert_at(ctx.pool, lit), (lit, symbol)),
                    ..ctx
                },
            )
        },
    }
}

/// The fields of the data of a string literal: its quoted text, each line
/// feed escaped, and the terminating zero.
pub open spec fn data_fields(lit: Seq<char>) -> Seq<(Type, Seq<char>)> {
    seq![(Type::B, "\""@ + escape_newlines(lit) + "\""@), (Type::B, "0"@)]
}

/// The data declarations of a pool, one for each literal, in the pool's order.
pub open spec fn pool_decls(pool: Seq<(Seq<char>, Seq<char>)>) -> Seq<DeclView> {
    Seq::new(pool.len(), |i: int| DeclView::Data(pool[i].1, data_fields(pool[i].0)))
}

/// The state with which the lowering of a module begins.
pub open spec fn initial(prefix: Seq<char>) -> LoweringCtxView {
    LoweringCtxView { prefix, pool: Seq::empty(), tmp_refs: Seq::empty(), uniq: 0 }
}

/// The mathematical value of a pool.
pub open spec fn pool_view(pool: Seq<(String, String)>) -> Seq<(Seq<char>, Seq<char>)> {
    Seq::new(pool.len(), |i: int| (pool[i].0@, pool[i].1@))
}

/// The mathematical value of a frame of by-reference slots.
pub open spec fn frame_view(frame: Seq<TmpRef>) -> Seq<TmpRefView> {
    Seq::new(frame.len(), |i: int| (frame[i].0@, frame[i].1@, frame[i].2))
}

/// The mathematical value of the stack of frames.
pub open spec fn frames_view(frames: Seq<Vec<TmpRef>>) -> Seq<Seq<TmpRefView>> {
    Seq::new(frames.len(), |i: int| frame_view(frames[i]@))
}

/// A pool that is searched in vain holds no entry of the literal.
pub proof fn lemma_pool_symbol_none(pool: Seq<(Seq<char>, Seq<char>)>, lit: Seq<char>)
    requires
        pool_symbol(pool, lit) is None,
    ensures
        forall|i: int| 0 <= i < pool.len() ==> pool[i].0 != lit,
    decreases pool.len(),
{
    if pool.len() > 0 {
        lemma_pool_symbol_none(pool.drop_first(), lit);
        assert forall|i: int| 0 <= i < pool.len() implies pool[i].0 != lit by {
            if i > 0 {
                assert(pool.drop_first()[i - 1] == pool[i]);
            }
        }
    }
}

/// Where a new literal goes: after every literal that comes before it, and
/// before the others.
pub proof fn lemma_insert_at(pool: Seq<(Seq<char>, Seq<char>)>, lit: Seq<char>)
    requires
        pool_sorted(pool),
    ensures
        0 <= insert_at(pool, lit) <= pool.len(),
        forall|i: int| 0 <= i < insert_at(pool, lit) ==> lex_lt(pool[i].0, lit),
        forall|i: int| insert_at(pool, lit) <= i < pool.len() ==> !lex_lt(pool[i].0, lit),
    decreases pool.len(),
{
    if pool.len() > 0 {
        let rest = pool.drop_first();
        assert forall|i: int, j: int| 0 <= i < j < rest.len() implies lex_lt(
            rest[i].0,
            rest[j].0,
        ) by {
            assert(rest[i] == pool[i + 1] && rest[j] == pool[j + 1]);
        }
        lemma_insert_at(rest, lit);
        if lex_lt(pool[0].0, lit) {
            assert forall|i: int| 0 <= i < insert_at(pool, lit) implies lex_lt(pool[i].0, lit) by {
                if i > 0 {
                    assert(rest[i - 1] == pool[i]);
                }
            }
            assert forall|i: int| insert_at(pool, lit) <= i < pool.len() implies !lex_lt(
                pool[i].0,
                lit,
            ) by {
                assert(rest[i - 1] == pool[i]);
            }
        } else {
            assert forall|i: int| 0 <= i < pool.len() implies !lex_lt(pool[i].0, lit) by {
                if i > 0 && lex_lt(pool[i].0, lit) {
                    lemma_lex_transitive(pool[0].0, pool[i].0, lit);
                }
            }
        }
    }
}

/// Interning keeps the literals of the pool in strictly ascending order.
pub proof fn lemma_interned_sorted(ctx: LoweringCtxView, lit: Seq<char>)
    requires
        pool_sorted(ctx.pool),
    ensures
        pool_sorted(interned(ctx, lit).1.pool),
{
    if pool_symbol(ctx.pool, lit) is None {
        let pool = ctx.pool;
        let at = insert_at(pool, lit);
        let entry = (lit, data_symbol(ctx.prefix, pool.len()));
        let after = pool.insert(at, entry);
        lemma_pool_symbol_none(pool, lit);
        lemma_insert_at(pool, lit);
        assert forall|i: int, j: int| 0 <= i < j < after.len() implies lex_lt(
            after[i].0,
            after[j].0,
        ) by {
            if j == at {
                assert(after[i] == pool[i]);
            } else if i == at {
                assert(after[j] == pool[j - 1]);
                lemma_lex_total(pool[j - 1].0, lit);
            } else {
                let pi = if i < at { i } else { i - 1 };
                let pj = if j < at { j } else { j - 1 };
                assert(after[i] == pool[pi] && after[j] == pool[pj]);
            }
        }
    }
}

impl View for LoweringCtx {
    type V = LoweringCtxView;

    closed spec fn view(&self) -> LoweringCtxView {
        LoweringCtxView {
            prefix: self.prefix@,
            pool: pool_view(self.pool@),
            tmp_refs: frames_view(self.tmp_refs@),
            uniq: digits_value(self.uniq@),
        }
    }
}

fn data_fields_of(lit: &String) -> (fields: Vec<DataField>)
    ensures
        crate::lower_lang::fields_view(fields@) == data_fields(lit@),
{
    let mut text = String::from_str("\"");
    append_escaped(&mut text, lit.as_str());
    text.append("\"");
    let mut fields: Vec<DataField> = Vec::new();
    fields.push((Type::B, text));
    fields.push((Type::B, String::from_str("0")));
    assert(crate::lower_lang::fields_view(fields@) =~= data_fields(lit@));
    fields
}

impl LoweringCtx {
    /// The state is well formed: its counter is a numeral, the literals of
    /// its pool come in strictly ascending order, and the symbols of its
    /// pool are numbered.
    pub closed spec fn wf(&self) -> bool {
        &&& is_numeral(self.uniq@)
        &&& pool_sorted(pool_view(self.pool@))
        &&& pool_numbered(self.prefix@, pool_view(self.pool@))
    }

    /// The pool of a well-formed state is in order, and its symbols are numbered.
    pub proof fn lemma_wf_pool(&self)
        requires
            self.wf(),
        ensures
            pool_sorted(self@.pool),
            pool_numbered(self@.prefix, self@.pool),
    {
    }

    /// The state with which the lowering of the module named `prefix` begins.
    pub fn new(prefix: &str) -> (ctx: LoweringCtx)
        ensures
            ctx.wf(),
            ctx@ == initial(prefix@),
    {
        let mut uniq: Vec<u8> = Vec::new();
        uniq.push(0);
        proof {
            lemma_single_digit(uniq@);
        }
        let ctx = LoweringCtx {
            prefix: String::from_str(prefix),
            pool: Vec::new(),
            tmp_refs: Vec::new(),
            uniq,
        };
        assert(pool_view(ctx.pool@) =~= Seq::empty());
        assert(frames_view(ctx.tmp_refs@) =~= Seq::empty());
        ctx
    }

    /// A fresh name: two dots, the tag, two dots, and the number of names
    /// handed out before.
    pub fn uniq_name(&mut self, prefix: &str) -> (name: String)
        requires
            old(self).wf(),
        ensures
            final(self).wf(),
            name@ == uniq_name(prefix@, old(self)@.uniq),
            final(self)@ == (LoweringCtxView { uniq: old(self)@.uniq + 1, ..old(self)@ }),
    {
        let mut name = String::from_str("..");
        name.append(prefix);
        name.append("..");
        append_numeral(&mut name, &self.uniq);
        increment(&mut self.uniq);
        assert(name@ =~= uniq_name(prefix@, old(self)@.uniq));
        name
    }

    /// The symbol of a string literal, which is interned where the pool does
    /// not hold it yet.
    #[verifier::loop_isolation(false)]
    pub fn name_for_str(&mut self, str: &str) -> (name: String)
        requires
            old(self).wf(),
        ensures
            final(self).wf(),
            name@ == interned(old(self)@, str@).0,
            final(self)@ == interned(old(self)@, str@).1,
    {
        let lit = String::from_str(str);
        let ghost pool = pool_view(self.pool@);
        let mut i: usize = 0;
        assert(pool.skip(0) =~= pool);
        while i < self.pool.len()
            invariant
                i <= self.pool.len(),
                pool == pool_view(self.pool@),
                lit@ == str@,
                pool_symbol(pool, lit@) == pool_symbol(pool.skip(i as int), lit@),
            decreases self.pool.len() - i,
        {
            proof {
                assert(pool.skip(i as int)[0] == pool[i as int]);
                assert(pool.skip(i as int).drop_first() =~= pool.skip(i + 1));
            }
            if self.pool[i].0 == lit {
                return self.pool[i].1.clone();
            }
            i = i + 1;
        }
        let mut name = self.prefix.clone();
        name.append("_str");
        append_decimal(&mut name, self.pool.len() as u64);
        assert(name@ =~= data_symbol(self.prefix@, pool.len()));
        let mut at: usize = 0;
        assert(pool.skip(0) =~= pool);
        while at < self.pool.len() && str_lt(&self.pool[at].0, &lit)
            invariant
                at <= self.pool.len(),
                pool == pool_view(self.pool@),
                insert_at(pool, lit@) == at + insert_at(pool.skip(at as int), lit@),
            decreases self.pool.len() - at,
        {
            proof {
                assert(pool.skip(at as int)[0] == pool[at as int]);
                assert(pool.skip(at as int).drop_first() =~= pool.skip(at + 1));
            }
            at = at + 1;
        }
        proof {
            if at < self.pool.len() {
                assert(pool.skip(at as int)[0] == pool[at as int]);
            }
            assert(insert_at(pool, lit@) == at);
            lemma_interned(self@, str@);
            assert(pool_view(self.pool@.insert(at as int, (lit, name))) =~= pool.insert(
                at as int,
                (lit@, name@),
            ));
        }
        let symbol = name.clone();
        self.pool.insert(at, (lit, name));
        symbol
    }

    /// The data declarations of the interned literals, in the order of the literals.
    pub fn decls(&self) -> (decls: Vec<Decl>)
        ensures
            decls_view(decls@) == pool_decls(self@.pool),
    {
        let mut decls: Vec<Decl> = Vec::new();
        let mut i: usize = 0;
        while i < self.pool.len()
            invariant
                i <= self.pool.len(),
                decls.len() == i,
                forall|j: int| 0 <= j < i ==> decls@[j]@ == pool_decls(self@.pool)[j],
            decreases self.pool.len() - i,
        {
            let fields = data_fields_of(&self.pool[i].0);
            decls.push(Decl::Data(self.pool[i].1.clone(), fields));
            i = i + 1;
        }
        assert(decls_view(decls@) =~= pool_decls(self@.pool));
        decls
    }

    /// The number of interned literals.
    pub fn decls_len(&self) -> (n: usize)
        ensures
            n == self@.pool.len(),
    {
        self.pool.len()
    }

    /// Records a by-reference slot in the innermost frame.
    pub fn add_tmp_ref(&mut self, tmp_ref: TmpRef)
        requires
            old(self)@.tmp_refs.len() > 0,
        ensures
            final(self).wf() == old(self).wf(),
            final(self)@ == (LoweringCtxView {
                tmp_refs: old(self)@.tmp_refs.drop_last().push(
                    old(self)@.tmp_refs.last().push((tmp_ref.0@, tmp_ref.1@, tmp_ref.2)),
                ),
                ..old(self)@
            }),
    {
        let ghost before = self.tmp_refs@;
        let mut frame = self.tmp_refs.pop().unwrap();
        let ghost old_frame = frame@;
        frame.push(tmp_ref);
        self.tmp_refs.push(frame);
        proof {
            assert(frame_view(old_frame.push(tmp_ref)) =~= frame_view(old_frame).push(
                (tmp_ref.0@, tmp_ref.1@, tmp_ref.2),
            ));
            assert(frames_view(self.tmp_refs@) =~= frames_view(before).drop_last().push(
                frames_view(before).last().push((tmp_ref.0@, tmp_ref.1@, tmp_ref.2)),
            ));
        }
    }

    /// Opens a frame of by-reference slots.
    pub fn push_tmp_refs(&mut self)
        ensures
            final(self).wf() == old(self).wf(),
            final(self)@ == (LoweringCtxView {
                tmp_refs: old(self)@.tmp_refs.push(Seq::empty()),
                ..old(self)@
            }),
    {
        let ghost before = self.tmp_refs@;
        self.tmp_refs.push(Vec::new());
        proof {
            assert(frame_view(Seq::<TmpRef>::empty()) =~= Seq::<TmpRefView>::empty());
            assert(frames_view(self.tmp_refs@) =~= frames_view(before).push(Seq::empty()));
        }
    }

    /// Closes the innermost frame of by-reference slots and hands it out.
    pub fn pop_tmp_refs(&mut self) -> (frame: Vec<TmpRef>)
        requires
            old(self)@.tmp_refs.len() > 0,
        ensures
            final(self).wf() == old(self).wf(),
            frame_view(frame@) == old(self)@.tmp_refs.last(),
            final(self)@ == (LoweringCtxView {
                tmp_refs: old(self)@.tmp_refs.drop_last(),
                ..old(self)@
            }),
    {
        let ghost before = self.tmp_refs@;
        let frame = self.tmp_refs.pop().unwrap();
        proof {
            assert(frames_view(self.tmp_refs@) =~= frames_view(before).drop_last());
        }
        frame
    }
}

/// The text holds two dots in a row.
pub open spec fn has_double_dot(s: Seq<char>) -> bool {
    exists|i: int| 0 <= i < s.len() - 1 && #[trigger] s[i] == '.' && s[i + 1] == '.'
}

/// A fresh name collides with no identifier of a program: it holds two dots
/// in a row, which an identifier does not.
pub proof fn lemma_uniq_name_no_identifier(tag: Seq<char>, n: nat, ident: Seq<char>)
    requires
        !has_double_dot(ident),
    ensures
        uniq_name(tag, n) != ident,
{
    reveal_strlit("..");
    let name = uniq_name(tag, n);
    assert(name[0int] == '.' && name[0int + 1] == '.');
    assert(has_double_dot(name));
}

/// Fresh names with different numbers are different names, whatever their tags.
pub proof fn lemma_uniq_names_differ(tag1: Seq<char>, n1: nat, tag2: Seq<char>, n2: nat)
    requires
        n1 != n2,
    ensures
        uniq_name(tag1, n1) != uniq_name(tag2, n2),
{
    reveal_strlit("..");
    if uniq_name(tag1, n1) == uniq_name(tag2, n2) {
        let front1 = ".."@ + tag1 + ".."@;
        let front2 = ".."@ + tag2 + ".."@;
        lemma_decimal_digits(n1);
        lemma_decimal_digits(n2);
        assert(front1.last() == '.');
        assert(front2.last() == '.');
        lemma_digits_at_end(front1, decimal(n1), front2, decimal(n2));
        lemma_decimal_injective(n1, n2);
    }
}

/// Literals that were interned with different numbers have different symbols.
pub proof fn lemma_data_symbols_differ(prefix: Seq<char>, n1: nat, n2: nat)
    requires
        n1 != n2,
    ensures
        data_symbol(prefix, n1) != data_symbol(prefix, n2),
{
    if data_symbol(prefix, n1) == data_symbol(prefix, n2) {
        let head = prefix + "_str"@;
        let a = head + decimal(n1);
        let b = head + decimal(n2);
        assert(a.len() == b.len());
        assert forall|i: int| 0 <= i < decimal(n1).len() implies decimal(n1)[i] == decimal(n2)[i] by {
            assert(a[head.len() + i] == decimal(n1)[i]);
            assert(b[head.len() + i] == decimal(n2)[i]);
        }
        assert(decimal(n1) =~= decimal(n2));
        lemma_decimal_injective(n1, n2);
    }
}

/// The symbols of a pool are those of the numbers below its size, and no two
/// entries have one symbol.
pub open spec fn pool_numbered(prefix: Seq<char>, pool: Seq<(Seq<char>, Seq<char>)>) -> bool {
    &&& forall|i: int|
        0 <= i < pool.len() ==> exists|k: nat|
            k < pool.len() && #[trigger] pool[i].1 == data_symbol(prefix, k)
    &&& forall|i: int, j: int| 0 <= i < j < pool.len() ==> pool[i].1 != pool[j].1
}

/// Every literal that `before` holds, `after` holds under the same symbol.
pub open spec fn pool_extends(
    before: Seq<(Seq<char>, Seq<char>)>,
    after: Seq<(Seq<char>, Seq<char>)>,
) -> bool {
    forall|lit: Seq<char>| #[trigger]
        pool_symbol(before, lit) is Some ==> pool_symbol(after, lit) == pool_symbol(before, lit)
}

/// No two entries of a pool hold one literal.
pub open spec fn pool_distinct(pool: Seq<(Seq<char>, Seq<char>)>) -> bool {
    forall|i: int, j: int| 0 <= i < j < pool.len() ==> pool[i].0 != pool[j].0
}

/// A pool whose literals come in strictly ascending order holds no literal twice.
pub proof fn lemma_sorted_distinct(pool: Seq<(Seq<char>, Seq<char>)>)
    requires
        pool_sorted(pool),
    ensures
        pool_distinct(pool),
{
    assert forall|i: int, j: int| 0 <= i < j < pool.len() implies pool[i].0 != pool[j].0 by {
        lemma_lex_irreflexive(pool[i].0);
    }
}

/// The symbol of a literal is the symbol of its entry.
pub proof fn lemma_pool_symbol_at(pool: Seq<(Seq<char>, Seq<char>)>, at: int)
    requires
        0 <= at < pool.len(),
        forall|i: int| 0 <= i < at ==> (#[trigger] pool[i]).0 != pool[at].0,
    ensures
        pool_symbol(pool, pool[at].0) == Some(pool[at].1),
    decreases pool.len(),
{
    if at > 0 {
        let rest = pool.drop_first();
        assert(rest[at - 1] == pool[at]);
        assert forall|i: int| 0 <= i < at - 1 implies (#[trigger] rest[i]).0 != rest[at - 1].0 by {
            assert(rest[i] == pool[i + 1]);
        }
        lemma_pool_symbol_at(rest, at - 1);
    }
}

/// A literal that a pool holds has an entry.
pub proof fn lemma_pool_symbol_some(pool: Seq<(Seq<char>, Seq<char>)>, lit: Seq<char>) -> (at: int)
    requires
        pool_symbol(pool, lit) is Some,
    ensures
        0 <= at < pool.len(),
        pool[at].0 == lit,
        pool_symbol(pool, lit) == Some(pool[at].1),
        forall|i: int| 0 <= i < at ==> (#[trigger] pool[i]).0 != lit,
    decreases pool.len(),
{
    if pool[0].0 == lit {
        0
    } else {
        let rest = pool.drop_first();
        let at = lemma_pool_symbol_some(rest, lit);
        assert(rest[at] == pool[at + 1]);
        assert forall|i: int| 0 <= i < at + 1 implies (#[trigger] pool[i]).0 != lit by {
            if i > 0 {
                assert(rest[i - 1] == pool[i]);
            }
        }
        at + 1
    }
}

/// What interning does to a pool: the literal is held under the symbol that
/// was handed out, every literal that was held keeps its symbol, and the
/// symbols stay numbered and different from each other.
pub proof fn lemma_interned(ctx: LoweringCtxView, lit: Seq<char>)
    requires
        pool_sorted(ctx.pool),
        pool_numbered(ctx.prefix, ctx.pool),
    ensures
        pool_sorted(interned(ctx, lit).1.pool),
        pool_numbered(ctx.prefix, interned(ctx, lit).1.pool),
        pool_symbol(interned(ctx, lit).1.pool, lit) == Some(interned(ctx, lit).0),
        pool_extends(ctx.pool, interned(ctx, lit).1.pool),
        interned(ctx, lit).1.prefix == ctx.prefix,
        interned(ctx, lit).1.tmp_refs == ctx.tmp_refs,
        interned(ctx, lit).1.uniq == ctx.uniq,
{
    lemma_interned_sorted(ctx, lit);
    let pool = ctx.pool;
    if pool_symbol(pool, lit) is None {
        let at = insert_at(pool, lit);
        let symbol = data_symbol(ctx.prefix, pool.len());
        let after = pool.insert(at, (lit, symbol));
        lemma_pool_symbol_none(pool, lit);
        lemma_insert_at(pool, lit);
        assert(after[at] == (lit, symbol));
        assert forall|i: int| 0 <= i < at implies (#[trigger] after[i]).0 != after[at].0 by {
            assert(after[i] == pool[i]);
        }
        lemma_pool_symbol_at(after, at);
        assert forall|other: Seq<char>| #[trigger]
            pool_symbol(pool, other) is Some implies pool_symbol(after, other) == pool_symbol(
            pool,
            other,
        ) by {
            let was = lemma_pool_symbol_some(pool, other);
            let now = if was < at {
                was
            } else {
                was + 1
            };
            assert(after[now] == pool[was]);
            assert forall|i: int| 0 <= i < now implies (#[trigger] after[i]).0 != after[now].0 by {
                if i < at {
                    assert(after[i] == pool[i]);
                } else if i > at {
                    assert(after[i] == pool[i - 1]);
                }
            }
            lemma_pool_symbol_at(after, now);
        }
        assert forall|i: int| 0 <= i < after.len() implies exists|k: nat|
            k < after.len() && #[trigger] after[i].1 == data_symbol(ctx.prefix, k) by {
            if i == at {
                assert(after[i].1 == data_symbol(ctx.prefix, pool.len()));
            } else {
                let was = if i < at {
                    i
                } else {
                    i - 1
                };
                assert(after[i] == pool[was]);
                let k = choose|k: nat| k < pool.len() && pool[was].1 == data_symbol(ctx.prefix, k);
                assert(after[i].1 == data_symbol(ctx.prefix, k));
            }
        }
        assert forall|i: int, j: int| 0 <= i < j < after.len() implies after[i].1
            != after[j].1 by {
            let wi = if i < at {
                i
            } else {
                i - 1
            };
            let wj = if j < at {
                j
            } else {
                j - 1
            };
            if i == at {
                assert(after[j] == pool[wj]);
                let k = choose|k: nat| k < pool.len() && pool[wj].1 == data_symbol(ctx.prefix, k);
                lemma_data_symbols_differ(ctx.prefix, k, pool.len());
            } else if j == at {
                assert(after[i] == pool[wi]);
                let k = choose|k: nat| k < pool.len() && pool[wi].1 == data_symbol(ctx.prefix, k);
                lemma_data_symbols_differ(ctx.prefix, k, pool.len());
            } else {
                assert(after[i] == pool[wi] && after[j] == pool[wj]);
            }
        }
    }
}

} // verus!
