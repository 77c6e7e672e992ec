//! Compiling one transaction: filling in what the source left open and
//! enforcing that every commodity balances.

use crate::ast;
use crate::compile::{CompilationError, CompilationResult};
use crate::output;
use vstd::prelude::*;
use vstd::string::StringExecFns;

verus! {

/// The message for a transaction with fewer than two postings.
pub const TOO_FEW_POSTINGS: &'static str = "Must have 2 or more postings.";

/// The message for a transaction with more than one open amount.
pub const MULTIPLE_EMPTY_AMOUNTS: &'static str = "Only a single posting can have an empty amount.";

/// The message for a transaction with more than one commodity out of balance.
pub const MULTIPLE_UNBALANCED: &'static str = "Only a single commodity can be unbalanced.";

/// The message for an open amount in a commodity other than the one out of balance.
pub const COMMODITY_MISMATCH: &'static str =
    "Empty posting commodity is different than unbalanced commodity.";

/// The message for a transaction that does not sum to zero.
pub const UNBALANCED: &'static str = "Unbalanced transaction.";

/// A posting with its commodity taken from the journal's default where the
/// source names none, and with amount 0 where the source gives none.
pub open spec fn resolve_posting(p: ast::PostingView, default_commodity: Seq<char>)
    -> output::PostingView {
    output::PostingView {
        account: p.account,
        commodity: match p.commodity {
            Some(c) => c,
            None => default_commodity,
        },
        amount: match p.amount {
            Some(a) => a,
            None => 0,
        },
    }
}

/// Each posting resolved, in order.
pub open spec fn resolve_postings(ps: Seq<ast::PostingView>, default_commodity: Seq<char>) -> Seq<
    output::PostingView,
> {
    Seq::new(ps.len(), |i: int| resolve_posting(ps[i], default_commodity))
}

/// Two different postings leave their amount open.
pub open spec fn multiple_omitted(ps: Seq<ast::PostingView>) -> bool {
    exists|i: int, j: int|
        0 <= i < j < ps.len() && (#[trigger] ps[i]).amount is None && (#[trigger] ps[j]).amount
            is None
}

/// Some posting leaves its amount open.
pub open spec fn some_omitted(ps: Seq<ast::PostingView>) -> bool {
    exists|i: int| 0 <= i < ps.len() && (#[trigger] ps[i]).amount is None
}

/// The position of a posting that leaves its amount open.
pub open spec fn omitted_index(ps: Seq<ast::PostingView>) -> int {
    choose|i: int| 0 <= i < ps.len() && (#[trigger] ps[i]).amount is None
}

/// The sum of the amounts that `ps` posts in `commodity`.
pub open spec fn balance(ps: Seq<output::PostingView>, commodity: Seq<char>) -> int
    decreases ps.len(),
{
    if ps.len() == 0 {
        0
    } else {
        balance(ps.drop_last(), commodity) + if ps.last().commodity == commodity {
            ps.last().amount as int
        } else {
            0
        }
    }
}

/// Every commodity sums to zero.
pub open spec fn is_balanced(ps: Seq<output::PostingView>) -> bool {
    forall|c: Seq<char>| #[trigger] balance(ps, c) == 0
}

/// Two different commodities have a sum other than zero.
pub open spec fn multiple_unbalanced(ps: Seq<output::PostingView>) -> bool {
    exists|c1: Seq<char>, c2: Seq<char>|
        c1 != c2 && #[trigger] balance(ps, c1) != 0 && #[trigger] balance(ps, c2) != 0
}

/// Some commodity other than `own` has a sum other than zero.
pub open spec fn unbalanced_elsewhere(ps: Seq<output::PostingView>, own: Seq<char>) -> bool {
    exists|c: Seq<char>| c != own && #[trigger] balance(ps, c) != 0
}

/// `ps` with the amount at position `i` replaced.
pub open spec fn with_amount(ps: Seq<output::PostingView>, i: int, amount: i64) -> Seq<
    output::PostingView,
> {
    ps.update(
        i,
        output::PostingView { account: ps[i].account, commodity: ps[i].commodity, amount },
    )
}

/// What compiling a transaction yields under a given default commodity:
/// the resolved transaction, or the message of the rule it breaks.
///
/// The rules are tried in this order: at least two postings; at most one
/// open amount; at most one commodity out of balance; an open amount stands
/// in the commodity that is out of balance and takes the negated imbalance;
/// in the end every commodity sums to zero.
pub open spec fn compile_model(t: ast::TransactionView, default_commodity: Seq<char>) -> Result<
    output::TransactionView,
    Seq<char>,
> {
    let resolved = resolve_postings(t.postings, default_commodity);
    let header = output::TransactionHeaderView {
        timestamp: t.header.timestamp,
        attributes: t.header.attributes,
    };
    if t.postings.len() < 2 {
        Err(TOO_FEW_POSTINGS@)
    } else if multiple_omitted(t.postings) {
        Err(MULTIPLE_EMPTY_AMOUNTS@)
    } else if multiple_unbalanced(resolved) {
        Err(MULTIPLE_UNBALANCED@)
    } else if some_omitted(t.postings) {
        let i = omitted_index(t.postings);
        let own = resolved[i].commodity;
        let fill = -balance(resolved, own);
        if unbalanced_elsewhere(resolved, own) {
            Err(COMMODITY_MISMATCH@)
        } else if fill < i64::MIN || fill > i64::MAX {
            Err(UNBALANCED@)
        } else {
            Ok(output::TransactionView { header, postings: with_amount(resolved, i, fill as i64) })
        }
    } else if !is_balanced(resolved) {
        Err(UNBALANCED@)
    } else {
        Ok(output::TransactionView { header, postings: resolved })
    }
}

/// A commodity that no posting names sums to zero.
pub proof fn lemma_balance_absent(ps: Seq<output::PostingView>, c: Seq<char>)
    requires
        forall|i: int| 0 <= i < ps.len() ==> (#[trigger] ps[i]).commodity != c,
    ensures
        balance(ps, c) == 0,
    decreases ps.len(),
{
    if ps.len() > 0 {
        lemma_balance_absent(ps.drop_last(), c);
    }
}

/// A sum of `n` 64-bit amounts stays within `n` times the 64-bit range.
pub proof fn lemma_balance_bound(ps: Seq<output::PostingView>, c: Seq<char>)
    ensures
        -(ps.len() * 0x8000_0000_0000_0000) <= balance(ps, c) <= ps.len() * 0x8000_0000_0000_0000,
    decreases ps.len(),
{
    if ps.len() > 0 {
        lemma_balance_bound(ps.drop_last(), c);
    }
}

/// Appending a posting adds its amount to the sum of its own commodity and
/// to no other.
pub proof fn lemma_balance_push(ps: Seq<output::PostingView>, p: output::PostingView, c: Seq<char>)
    ensures
        balance(ps.push(p), c) == balance(ps, c) + if p.commodity == c {
            p.amount as int
        } else {
            0
        },
{
    assert(ps.push(p).drop_last() =~= ps);
}

/// Replacing the amount of one posting moves the sum of its commodity by the
/// difference and leaves every other sum alone.
pub proof fn lemma_balance_with_amount(
    ps: Seq<output::PostingView>,
    i: int,
    amount: i64,
    c: Seq<char>,
)
    requires
        0 <= i < ps.len(),
    ensures
        balance(with_amount(ps, i, amount), c) == balance(ps, c) + if ps[i].commodity == c {
            amount - ps[i].amount
        } else {
            0
        },
    decreases ps.len(),
{
    let qs = with_amount(ps, i, amount);
    if i == ps.len() - 1 {
        assert(qs.drop_last() =~= ps.drop_last());
    } else {
        lemma_balance_with_amount(ps.drop_last(), i, amount, c);
        assert(qs.drop_last() =~= with_amount(ps.drop_last(), i, amount));
    }
}

/// Every transaction that compiles is balanced: each commodity that occurs
/// in it sums to exactly zero.
pub proof fn lemma_compiled_is_balanced(t: ast::TransactionView, default_commodity: Seq<char>)
    requires
        compile_model(t, default_commodity) is Ok,
    ensures
        is_balanced(compile_model(t, default_commodity)->Ok_0.postings),
{
    let resolved = resolve_postings(t.postings, default_commodity);
    if some_omitted(t.postings) {
        let i = omitted_index(t.postings);
        let own = resolved[i].commodity;
        let fill = -balance(resolved, own);
        let filled = with_amount(resolved, i, fill as i64);
        assert forall|c: Seq<char>| #[trigger] balance(filled, c) == 0 by {
            lemma_balance_with_amount(resolved, i, fill as i64, c);
        }
    }
}

/// A transaction whose postings all name their commodity and give their
/// amount compiles, if at all, to exactly those postings, and each commodity
/// sums to zero.
pub proof fn lemma_explicit_postings_are_kept(t: ast::TransactionView, default_commodity: Seq<char>)
    requires
        forall|i: int|
            0 <= i < t.postings.len() ==> (#[trigger] t.postings[i]).commodity is Some
                && t.postings[i].amount is Some,
        compile_model(t, default_commodity) is Ok,
    ensures
        ({
            let out = compile_model(t, default_commodity)->Ok_0;
            &&& out.header.timestamp == t.header.timestamp
            &&& out.header.attributes == t.header.attributes
            &&& out.postings.len() == t.postings.len()
            &&& forall|i: int|
                0 <= i < t.postings.len() ==> (#[trigger] out.postings[i]).account
                    == t.postings[i].account && out.postings[i].commodity
                    == t.postings[i].commodity->Some_0 && out.postings[i].amount
                    == t.postings[i].amount->Some_0
            &&& is_balanced(out.postings)
        }),
{
    lemma_compiled_is_balanced(t, default_commodity);
}

/// Two postings in one commodity, the second with its amount left open:
/// the open amount is the negated amount of the first.
pub proof fn lemma_auto_balance_of_two(
    header: ast::TransactionHeaderView,
    first: Seq<char>,
    second: Seq<char>,
    commodity: Seq<char>,
    amount: i64,
    default_commodity: Seq<char>,
)
    requires
        amount > i64::MIN,
    ensures
        ({
            let t = ast::TransactionView {
                header,
                postings: seq![
                    ast::PostingView {
                        account: first,
                        commodity: Some(commodity),
                        amount: Some(amount),
                    },
                    ast::PostingView { account: second, commodity: Some(commodity), amount: None },
                ],
            };
            &&& compile_model(t, default_commodity) matches Ok(compiled)
            &&& compiled.postings.len() == 2
            &&& compiled.postings[0] == (output::PostingView {
                account: first,
                commodity,
                amount,
            })
            &&& compiled.postings[1] == (output::PostingView {
                account: second,
                commodity,
                amount: (-amount) as i64,
            })
        }),
{
    let t = ast::TransactionView {
        header,
        postings: seq![
            ast::PostingView { account: first, commodity: Some(commodity), amount: Some(amount) },
            ast::PostingView { account: second, commodity: Some(commodity), amount: None },
        ],
    };
    let resolved = resolve_postings(t.postings, default_commodity);
    assert(t.postings[1].amount is None);
    assert(omitted_index(t.postings) == 1);
    reveal_with_fuel(balance, 4);
    assert(resolved.drop_last().drop_last() =~= Seq::empty());
    assert forall|c: Seq<char>| balance(resolved, c) == (if c == commodity {
        amount as int
    } else {
        0
    }) by {
        assert(resolved.drop_last().len() == 1);
    }
}

/// The inputs that must be refused are refused: fewer than two postings; two
/// or more open amounts; two or more commodities out of balance; an open
/// amount in a commodity other than the one out of balance.
pub proof fn lemma_rejections(t: ast::TransactionView, default_commodity: Seq<char>)
    ensures
        t.postings.len() < 2 ==> compile_model(t, default_commodity) is Err,
        multiple_omitted(t.postings) ==> compile_model(t, default_commodity) is Err,
        multiple_unbalanced(resolve_postings(t.postings, default_commodity)) ==> compile_model(
            t,
            default_commodity,
        ) is Err,
        some_omitted(t.postings) && unbalanced_elsewhere(
            resolve_postings(t.postings, default_commodity),
            resolve_postings(t.postings, default_commodity)[omitted_index(t.postings)].commodity,
        ) ==> compile_model(t, default_commodity) is Err,
{
}

/// Some posting of `ps` is in the commodity `c`.
pub open spec fn is_named(ps: Seq<output::PostingView>, c: Seq<char>) -> bool {
    exists|q: int| 0 <= q < ps.len() && (#[trigger] ps[q]).commodity == c
}

/// `m` lists, once each, the commodities that `ps` names, and no others,
/// each with its sum.
pub open spec fn balances_of(m: Seq<(String, i128)>, ps: Seq<output::PostingView>) -> bool {
    &&& forall|a: int, b: int|
        0 <= a < b < m.len() ==> (#[trigger] m[a]).0@ != (#[trigger] m[b]).0@
    &&& forall|k: int| 0 <= k < m.len() ==> (#[trigger] m[k]).1 == balance(ps, m[k].0@)
    &&& forall|q: int|
        0 <= q < ps.len() ==> exists|k: int|
            0 <= k < m.len() && (#[trigger] m[k]).0@ == (#[trigger] ps[q]).commodity
    &&& forall|k: int| 0 <= k < m.len() ==> #[trigger] is_named(ps, m[k].0@)
}

/// `u` lists, once each, the commodities whose sum in `ps` is not zero, each
/// with that sum.
pub open spec fn unbalanced_of(u: Seq<(String, i128)>, ps: Seq<output::PostingView>) -> bool {
    &&& forall|a: int, b: int|
        0 <= a < b < u.len() ==> (#[trigger] u[a]).0@ != (#[trigger] u[b]).0@
    &&& forall|k: int|
        0 <= k < u.len() ==> (#[trigger] u[k]).1 == balance(ps, u[k].0@) && u[k].1 != 0
    &&& forall|c: Seq<char>|
        #[trigger] balance(ps, c) != 0 ==> exists|k: int|
            0 <= k < u.len() && (#[trigger] u[k]).0@ == c
}

/// A commodity with a sum other than zero is named by some posting.
pub proof fn lemma_unbalanced_occurs(ps: Seq<output::PostingView>, c: Seq<char>)
    requires
        balance(ps, c) != 0,
    ensures
        exists|q: int| 0 <= q < ps.len() && (#[trigger] ps[q]).commodity == c,
{
    if forall|q: int| 0 <= q < ps.len() ==> (#[trigger] ps[q]).commodity != c {
        lemma_balance_absent(ps, c);
    }
}

/// The compiler of transactions.
pub struct TransactionCompiler;

impl TransactionCompiler {
    /// Sums the amounts of each commodity, in the order in which the
    /// commodities first occur.
    pub fn compute_balances(postings: &[output::Posting]) -> (m: Vec<(String, i128)>)
        ensures
            balances_of(m@, postings.deep_view()),
    {
        let ghost ps = postings.deep_view();
        let mut m: Vec<(String, i128)> = Vec::new();
        let mut j: usize = 0;
        proof {
            assert(ps.take(0) =~= Seq::empty());
        }
        while j < postings.len()
            invariant
                j <= postings.len(),
                ps == postings.deep_view(),
                balances_of(m@, ps.take(j as int)),
            decreases postings.len() - j,
        {
            let p = &postings[j];
            let ghost c = p.commodity@;
            let ghost before = ps.take(j as int);
            let ghost after = ps.take(j + 1);
            proof {
                assert(ps[j as int] == p@);
                assert(after =~= before.push(ps[j as int]));
            }
            let mut k: usize = 0;
            let mut found: Option<usize> = None;
            while k < m.len()
                invariant_except_break
                    found is None,
                    forall|i: int| 0 <= i < k ==> (#[trigger] m@[i]).0@ != c,
                invariant
                    k <= m.len(),
                    c == p.commodity@,
                ensures
                    match found {
                        Some(at) => at < m.len() && m@[at as int].0@ == c,
                        None => forall|i: int| 0 <= i < m.len() ==> (#[trigger] m@[i]).0@ != c,
                    },
                decreases m.len() - k,
            {
                if m[k].0 == p.commodity {
                    found = Some(k);
                    break ;
                }
                k += 1;
            }
            match found {
                Some(at) => {
                    let key = m[at].0.clone();
                    let sum = m[at].1;
                    proof {
                        lemma_balance_bound(before, c);
                        lemma_balance_push(before, ps[j as int], c);
                        assert forall|i: int| 0 <= i < m.len() implies balance(
                            after,
                            (#[trigger] m@[i]).0@,
                        ) == balance(before, m@[i].0@) + if i == at {
                            p.amount as int
                        } else {
                            0
                        } by {
                            lemma_balance_push(before, ps[j as int], m@[i].0@);
                        }
                    }
                    let ghost old_m = m@;
                    m.set(at, (key, sum + p.amount as i128));
                    proof {
                        assert forall|i: int| 0 <= i < m.len() implies #[trigger] is_named(
                            after,
                            m@[i].0@,
                        ) by {
                            assert(is_named(before, old_m[i].0@));
                            let q = choose|q: int|
                                0 <= q < before.len() && (#[trigger] before[q]).commodity
                                    == old_m[i].0@;
                            assert(after[q].commodity == m@[i].0@);
                        }
                        assert forall|q: int| 0 <= q < after.len() implies exists|i: int|
                            0 <= i < m.len() && (#[trigger] m@[i]).0@ == (
                            #[trigger] after[q]).commodity by {
                            if q < j {
                                let i = choose|i: int|
                                    0 <= i < old_m.len() && (#[trigger] old_m[i]).0@
                                        == before[q].commodity;
                                assert(m@[i].0@ == after[q].commodity);
                            } else {
                                assert(m@[at as int].0@ == after[q].commodity);
                            }
                        }
                    }
                },
                None => {
                    proof {
                        assert forall|q: int| 0 <= q < before.len() implies (
                        #[trigger] before[q]).commodity != c by {
                            let i = choose|i: int|
                                0 <= i < m.len() && (#[trigger] m@[i]).0@ == before[q].commodity;
                        }
                        lemma_balance_absent(before, c);
                        lemma_balance_push(before, ps[j as int], c);
                        assert forall|i: int| 0 <= i < m.len() implies balance(
                            after,
                            (#[trigger] m@[i]).0@,
                        ) == balance(before, m@[i].0@) by {
                            lemma_balance_push(before, ps[j as int], m@[i].0@);
                        }
                    }
                    let ghost old_m = m@;
                    m.push((p.commodity.clone(), p.amount as i128));
                    proof {
                        assert forall|i: int| 0 <= i < m.len() implies #[trigger] is_named(
                            after,
                            m@[i].0@,
                        ) by {
                            if i < old_m.len() {
                                assert(is_named(before, old_m[i].0@));
                                let q = choose|q: int|
                                    0 <= q < before.len() && (#[trigger] before[q]).commodity
                                        == old_m[i].0@;
                                assert(after[q].commodity == m@[i].0@);
                            } else {
                                assert(after[j as int].commodity == m@[i].0@);
                            }
                        }
                        assert forall|q: int| 0 <= q < after.len() implies exists|i: int|
                            0 <= i < m.len() && (#[trigger] m@[i]).0@ == (
                            #[trigger] after[q]).commodity by {
                            if q < j {
                                let i = choose|i: int|
                                    0 <= i < old_m.len() && (#[trigger] old_m[i]).0@
                                        == before[q].commodity;
                                assert(m@[i].0@ == after[q].commodity);
                            } else {
                                assert(m@[m.len() - 1].0@ == after[q].commodity);
                            }
                        }
                    }
                },
            }
            j += 1;
        }
        proof {
            assert(ps.take(j as int) =~= ps);
        }
        m
    }

    /// Lists the commodities that do not sum to zero, each with its sum.
    pub fn find_unbalanced_commodities(postings: &[output::Posting]) -> (u: Vec<(String, i128)>)
        ensures
            unbalanced_of(u@, postings.deep_view()),
    {
        let ghost ps = postings.deep_view();
        let m = Self::compute_balances(postings);
        let mut u: Vec<(String, i128)> = Vec::new();
        let mut k: usize = 0;
        while k < m.len()
            invariant
                k <= m.len(),
                balances_of(m@, ps),
                forall|a: int, b: int|
                    0 <= a < b < u.len() ==> (#[trigger] u@[a]).0@ != (#[trigger] u@[b]).0@,
                forall|i: int|
                    0 <= i < u.len() ==> (#[trigger] u@[i]).1 == balance(ps, u@[i].0@) && u@[i].1
                        != 0,
                forall|i: int|
                    0 <= i < u.len() ==> exists|h: int|
                        0 <= h < k && (#[trigger] m@[h]).0@ == (#[trigger] u@[i]).0@,
                forall|h: int|
                    0 <= h < k && (#[trigger] m@[h]).1 != 0 ==> exists|i: int|
                        0 <= i < u.len() && (#[trigger] u@[i]).0@ == m@[h].0@,
            decreases m.len() - k,
        {
            if m[k].1 != 0 {
                let ghost old_u = u@;
                proof {
                    assert forall|i: int| 0 <= i < u.len() implies (#[trigger] u@[i]).0@
                        != m@[k as int].0@ by {
                        let h = choose|h: int| 0 <= h < k && (#[trigger] m@[h]).0@ == u@[i].0@;
                    }
                }
                u.push((m[k].0.clone(), m[k].1));
                proof {
                    assert forall|h: int| 0 <= h < k + 1 && (#[trigger] m@[h]).1
                        != 0 implies exists|i: int|
                        0 <= i < u.len() && (#[trigger] u@[i]).0@ == m@[h].0@ by {
                        if h < k {
                            let i = choose|i: int|
                                0 <= i < old_u.len() && (#[trigger] old_u[i]).0@ == m@[h].0@;
                            assert(u@[i].0@ == m@[h].0@);
                        } else {
                            assert(u@[u.len() - 1].0@ == m@[h].0@);
                        }
                    }
                    assert forall|i: int| 0 <= i < u.len() implies exists|h: int|
                        0 <= h < k + 1 && (#[trigger] m@[h]).0@ == (#[trigger] u@[i]).0@ by {
                        if i < old_u.len() {
                            let h = choose|h: int|
                                0 <= h < k && (#[trigger] m@[h]).0@ == old_u[i].0@;
                            assert(m@[h].0@ == u@[i].0@);
                        } else {
                            assert(m@[k as int].0@ == u@[i].0@);
                        }
                    }
                }
            }
            k += 1;
        }
        proof {
            assert forall|c: Seq<char>| #[trigger] balance(ps, c) != 0 implies exists|i: int|
                0 <= i < u.len() && (#[trigger] u@[i]).0@ == c by {
                lemma_unbalanced_occurs(ps, c);
                let q = choose|q: int| 0 <= q < ps.len() && (#[trigger] ps[q]).commodity == c;
                let h = choose|h: int| 0 <= h < m.len() && (#[trigger] m@[h]).0@ == ps[q].commodity;
                assert(m@[h].1 != 0);
            }
        }
        u
    }

    /// Resolves each posting against the journal's default commodity and
    /// finds the one posting, if any, whose amount is left open.
    pub fn validate_postings(postings: &[ast::Posting], journal: &output::Journal) -> (r:
        CompilationResult<(Vec<output::Posting>, Option<usize>)>)
        ensures
            match r {
                Ok((out, open)) => {
                    &&& postings.len() >= 2
                    &&& !multiple_omitted(postings.deep_view())
                    &&& out.deep_view() == resolve_postings(
                        postings.deep_view(),
                        journal@.default_commodity,
                    )
                    &&& match open {
                        Some(i) => i < postings.len() && postings.deep_view()[i as int].amount
                            is None,
                        None => !some_omitted(postings.deep_view()),
                    }
                },
                Err(e) => if postings.len() < 2 {
                    e@ == TOO_FEW_POSTINGS@
                } else {
                    multiple_omitted(postings.deep_view()) && e@ == MULTIPLE_EMPTY_AMOUNTS@
                },
            },
    {
        let ghost ps = postings.deep_view();
        let ghost default_commodity = journal@.default_commodity;
        let n_postings = postings.len();
        if n_postings < 2 {
            return Err(CompilationError::from_str(TOO_FEW_POSTINGS));
        }
        let mut out_postings: Vec<output::Posting> = Vec::new();
        let mut i_empty_amount: Option<usize> = None;
        let mut i: usize = 0;
        while i < n_postings
            invariant
                i <= n_postings,
                n_postings == postings.len(),
                ps == postings.deep_view(),
                default_commodity == journal@.default_commodity,
                out_postings.len() == i,
                forall|k: int|
                    0 <= k < i ==> (#[trigger] out_postings@[k])@ == resolve_posting(
                        ps[k],
                        default_commodity,
                    ),
                match i_empty_amount {
                    Some(at) => at < i && ps[at as int].amount is None && forall|k: int|
                        0 <= k < i && k != at ==> (#[trigger] ps[k]).amount is Some,
                    None => forall|k: int| 0 <= k < i ==> (#[trigger] ps[k]).amount is Some,
                },
            decreases n_postings - i,
        {
            let p_in = &postings[i];
            proof {
                assert(ps[i as int] == p_in@);
            }
            let commodity = match &p_in.commodity {
                Some(c) => c.clone(),
                None => journal.header.default_commodity.clone(),
            };
            let amount = match p_in.amount {
                Some(a) => a,
                None => 0,
            };
            out_postings.push(output::Posting { account: p_in.account.clone(), commodity, amount });
            if p_in.amount.is_none() {
                if let Some(at) = i_empty_amount {
                    proof {
                        assert(ps[at as int].amount is None && ps[i as int].amount is None);
                    }
                    return Err(CompilationError::from_str(MULTIPLE_EMPTY_AMOUNTS));
                }
                i_empty_amount = Some(i);
            }
            i += 1;
        }
        proof {
            assert(out_postings.deep_view() =~= resolve_postings(ps, default_commodity));
        }
        Ok((out_postings, i_empty_amount))
    }

    /// Accepts a transaction only if every commodity sums to zero.
    pub fn ensure_transaction_is_balanced(t: &output::Transaction) -> (r: CompilationResult<()>)
        ensures
            r is Ok <==> is_balanced(t@.postings),
            r matches Err(e) ==> e@ == UNBALANCED@,
    {
        let ghost ps = t@.postings;
        let m = Self::compute_balances(t.postings.as_slice());
        let mut k: usize = 0;
        while k < m.len()
            invariant
                k <= m.len(),
                ps == t@.postings,
                balances_of(m@, ps),
                forall|h: int| 0 <= h < k ==> (#[trigger] m@[h]).1 == 0,
            decreases m.len() - k,
        {
            if m[k].1 != 0 {
                proof {
                    assert(balance(ps, m@[k as int].0@) != 0);
                }
                return Err(CompilationError::from_str(UNBALANCED));
            }
            k += 1;
        }
        proof {
            assert forall|c: Seq<char>| #[trigger] balance(ps, c) == 0 by {
                if balance(ps, c) != 0 {
                    lemma_unbalanced_occurs(ps, c);
                    let q = choose|q: int| 0 <= q < ps.len() && (#[trigger] ps[q]).commodity == c;
                    let h = choose|h: int|
                        0 <= h < m.len() && (#[trigger] m@[h]).0@ == ps[q].commodity;
                    assert(m@[h].1 == 0);
                }
            }
        }
        Ok(())
    }

    /// Compiles one transaction and, if it obeys every rule, appends it to
    /// the journal. A transaction that breaks a rule leaves the journal as
    /// it was.
    pub fn compile(t: &ast::Transaction, journal: &mut output::Journal) -> (r: CompilationResult<
        (),
    >)
        ensures
            match r {
                Ok(()) => {
                    &&& compile_model(t@, old(journal)@.default_commodity) matches Ok(compiled)
                    &&& final(journal)@.default_commodity == old(journal)@.default_commodity
                    &&& final(journal)@.transactions == old(journal)@.transactions.push(compiled)
                    &&& is_balanced(compiled.postings)
                },
                Err(e) => {
                    &&& compile_model(t@, old(journal)@.default_commodity) == Err::<
                        output::TransactionView,
                        Seq<char>,
                    >(e@)
                    &&& *final(journal) == *old(journal)
                },
            },
    {
        let ghost ps = t@.postings;
        let ghost default_commodity = journal@.default_commodity;
        let ghost resolved = resolve_postings(ps, default_commodity);
        let n_postings = t.postings.len();
        if n_postings < 2 {
            return Err(CompilationError::from_str(TOO_FEW_POSTINGS));
        }
        let (mut postings, i_empty_amount) = Self::validate_postings(
            t.postings.as_slice(),
            journal,
        )?;
        let unbalanced_commodities = Self::find_unbalanced_commodities(postings.as_slice());
        proof {
            let u = unbalanced_commodities@;
            if u.len() > 1 {
                assert(u[0].0@ != u[1].0@);
                assert(balance(resolved, u[0].0@) != 0 && balance(resolved, u[1].0@) != 0);
            }
            if multiple_unbalanced(resolved) {
                let (c1, c2) = choose|c1: Seq<char>, c2: Seq<char>|
                    c1 != c2 && #[trigger] balance(resolved, c1) != 0 && #[trigger] balance(
                        resolved,
                        c2,
                    ) != 0;
                let k1 = choose|k: int| 0 <= k < u.len() && (#[trigger] u[k]).0@ == c1;
                let k2 = choose|k: int| 0 <= k < u.len() && (#[trigger] u[k]).0@ == c2;
                assert(k1 != k2);
            }
        }
        if unbalanced_commodities.len() > 1 {
            return Err(CompilationError::from_str(MULTIPLE_UNBALANCED));
        }
        if let Some(i) = i_empty_amount {
            proof {
                let chosen = omitted_index(ps);
                assert(ps[i as int].amount is None);
                if chosen != i {
                    if chosen < i {
                        assert(ps[chosen].amount is None && ps[i as int].amount is None);
                    } else {
                        assert(ps[i as int].amount is None && ps[chosen].amount is None);
                    }
                }
                assert(chosen == i);
            }
            let ghost own = resolved[i as int].commodity;
            let (commodity, amount) = if unbalanced_commodities.len() > 0 {
                (unbalanced_commodities[0].0.clone(), unbalanced_commodities[0].1)
            } else {
                (postings[i].commodity.clone(), 0i128)
            };
            proof {
                let u = unbalanced_commodities@;
                if u.len() > 0 {
                    assert(balance(resolved, u[0].0@) != 0);
                    if unbalanced_elsewhere(resolved, own) {
                        let c = choose|c: Seq<char>|
                            c != own && #[trigger] balance(resolved, c) != 0;
                        let k = choose|k: int| 0 <= k < u.len() && (#[trigger] u[k]).0@ == c;
                        assert(u[0].0@ != own);
                    }
                } else {
                    if unbalanced_elsewhere(resolved, own) {
                        let c = choose|c: Seq<char>|
                            c != own && #[trigger] balance(resolved, c) != 0;
                        let k = choose|k: int| 0 <= k < u.len() && (#[trigger] u[k]).0@ == c;
                    }
                    if balance(resolved, own) != 0 {
                        let k = choose|k: int| 0 <= k < u.len() && (#[trigger] u[k]).0@ == own;
                    }
                }
            }
            if !(postings[i].commodity == commodity) {
                return Err(CompilationError::from_str(COMMODITY_MISMATCH));
            }
            if amount < -0x7fff_ffff_ffff_ffffi128 || amount > 0x8000_0000_0000_0000i128 {
                return Err(CompilationError::from_str(UNBALANCED));
            }
            let fill: i64 = (-amount) as i64;
            let filled = output::Posting {
                account: postings[i].account.clone(),
                commodity: postings[i].commodity.clone(),
                amount: fill,
            };
            postings.set(i, filled);
            proof {
                assert(postings.deep_view() =~= with_amount(resolved, i as int, fill));
                lemma_compiled_is_balanced(t@, default_commodity);
            }
        }
        let out_t = output::Transaction {
            header: output::TransactionHeader {
                timestamp: t.header.timestamp,
                attributes: t.header.attributes.clone(),
            },
            postings,
        };
        Self::ensure_transaction_is_balanced(&out_t)?;
        let ghost before = journal@.transactions;
        journal.transactions.push(out_t);
        proof {
            assert(journal@.transactions =~= before.push(out_t@));
            lemma_compiled_is_balanced(t@, default_commodity);
        }
        Ok(())
    }
}

} // verus!
