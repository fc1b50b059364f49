use vstd::prelude::*;

use crate::sto_capped::{
    admission, currency_admission, index_of, launch_check, launched, sale_of, sale_valid, sales_of,
    settle_check, settled, toggle_apply, toggle_check, valid_model, Investment, SaleView,
    SalesModel, StoError,
};

verus! {

/// The state after committing, in order, each purchase of `invs` against
/// sale `id` of `t` that passes its check (mint and payment done); one
/// that fails leaves the state as it is.
pub open spec fn settle_all(m: SalesModel, t: Seq<u8>, id: int, invs: Seq<Investment>) -> SalesModel
    decreases invs.len(),
{
    if invs.len() == 0 {
        m
    } else {
        let inv = invs.last();
        let before = settle_all(m, t, id, invs.drop_last());
        if settle_check(before, t, id, inv.tokens_purchased as int, true, true) is Ok {
            settled(before, t, id, inv)
        } else {
            before
        }
    }
}

proof fn lemma_settled_valid(m: SalesModel, t: Seq<u8>, id: int, inv: Investment)
    requires
        valid_model(m),
        settle_check(m, t, id, inv.tokens_purchased as int, true, true) is Ok,
    ensures
        valid_model(settled(m, t, id, inv)),
{
    let s = sale_of(m, t, id)->0;
    let nm = settled(m, t, id, inv);
    assert(m.contains_key(t));
    assert(sale_valid(m[t][id]));
    assert forall|k: Seq<u8>, q: int|
        nm.contains_key(k) && 0 <= q < nm[k].len() implies sale_valid(#[trigger] nm[k][q]) by {
        if k != t {
            assert(nm[k] == m[k]);
        } else if q != id {
            assert(nm[k][q] == m[k][q]);
        }
    }
}

/// No sale ever sells beyond its cap. A purchase is committed only while
/// `sold + tokens <= cap`, so from a valid state every sequence of
/// purchases leads to a valid state, where each sale has `sold <= cap`;
/// a purchase that would pass the cap is refused with `CapExceeded` (and a
/// refused commit changes nothing).
pub proof fn lemma_cap_invariant(m: SalesModel, t: Seq<u8>, id: int, invs: Seq<Investment>)
    requires
        valid_model(m),
    ensures
        valid_model(settle_all(m, t, id, invs)),
        sale_of(settle_all(m, t, id, invs), t, id) matches Some(s) ==> s.sto.sold <= s.sto.cap,
        forall|tokens: int|
            sale_of(m, t, id) matches Some(s) && s.sto.sold + tokens > s.sto.cap && s.sto.sold
                + tokens <= u128::MAX ==> #[trigger] settle_check(m, t, id, tokens, true, true)
                == Err::<(), StoError>(StoError::CapExceeded),
    decreases invs.len(),
{
    if invs.len() > 0 {
        lemma_cap_invariant(m, t, id, invs.drop_last());
        let before = settle_all(m, t, id, invs.drop_last());
        let inv = invs.last();
        if settle_check(before, t, id, inv.tokens_purchased as int, true, true) is Ok {
            lemma_settled_valid(before, t, id, inv);
        }
    }
    let fm = settle_all(m, t, id, invs);
    if sale_of(fm, t, id) is Some {
        assert(fm.contains_key(t));
        assert(sale_valid(fm[t][id]));
    }
}

/// An admitted purchase fits under the cap, and one that would pass the
/// cap (without overflowing) is refused with `CapExceeded`.
pub proof fn lemma_admission_within_cap(s: SaleView, now: u64, balance: u128, value: u128)
    ensures
        admission(Some(s), now, balance, value) matches Ok(tokens) ==> s.sto.sold + tokens
            <= s.sto.cap && tokens == value * s.sto.rate,
        ({
            &&& s.sto.start_date <= now <= s.sto.end_date
            &&& s.sto.active
            &&& value <= balance
            &&& s.sto.sold + value * s.sto.rate <= u128::MAX
            &&& s.sto.sold + value * s.sto.rate > s.sto.cap
        }) ==> admission(Some(s), now, balance, value) == Err::<int, StoError>(
            StoError::CapExceeded,
        ),
{
    assert(0 <= value * s.sto.rate) by (nonlinear_arith);
}

/// `sold` never goes down. Committing a purchase raises the `sold` of its
/// sale by exactly the tokens bought and leaves every other sale as it was;
/// a refused commit changes nothing.
pub proof fn lemma_sold_monotone(
    m: SalesModel,
    t: Seq<u8>,
    id: int,
    inv: Investment,
    t2: Seq<u8>,
    id2: int,
)
    requires
        sale_of(m, t2, id2) is Some,
    ensures
        settle_check(m, t, id, inv.tokens_purchased as int, true, true) is Ok ==> {
            let after = sale_of(settled(m, t, id, inv), t2, id2);
            &&& after is Some
            &&& (t2 == t && id2 == id) ==> after->0.sto.sold == sale_of(m, t2, id2)->0.sto.sold
                + inv.tokens_purchased
            &&& !(t2 == t && id2 == id) ==> after == sale_of(m, t2, id2)
            &&& after->0.sto.sold >= sale_of(m, t2, id2)->0.sto.sold
        },
{
}

/// Launching a sale or changing an allow-list leaves every existing sale's
/// terms, and so its `sold`, as they were.
pub proof fn lemma_other_changes_keep_sold(
    m: SalesModel,
    t: Seq<u8>,
    id: int,
    c: Seq<u8>,
    desired: bool,
    fresh: SaleView,
    t2: Seq<u8>,
    id2: int,
)
    requires
        sale_of(m, t2, id2) is Some,
    ensures
        sale_of(launched(m, t, fresh), t2, id2) == sale_of(m, t2, id2),
        sale_of(toggle_apply(m, t, id, c, desired), t2, id2) matches Some(s) && s.sto == sale_of(
            m,
            t2,
            id2,
        )->0.sto,
{
}

/// A purchase outside its sale's window is refused with `NotOpen`, on both
/// ways of paying (for the secondary currency, once it is allowed).
/// Admission only reads the state.
pub proof fn lemma_time_window(
    m: SalesModel,
    t: Seq<u8>,
    id: int,
    c: Seq<u8>,
    now: u64,
    balance: u128,
    value: u128,
)
    requires
        sale_of(m, t, id) matches Some(s) && (now < s.sto.start_date || now > s.sto.end_date),
    ensures
        admission(sale_of(m, t, id), now, balance, value) == Err::<int, StoError>(
            StoError::NotOpen,
        ),
        index_of(m, t, id, c) is Some ==> currency_admission(m, t, id, c, now, balance, value)
            == Err::<int, StoError>(StoError::NotOpen),
{
}

/// Enabling a currency and then disabling it gives back the state before,
/// where the currency has no position; while enabled it has the next
/// position, and enabling it again is refused with `NoChange`.
pub proof fn lemma_allow_list_round_trip(
    m: SalesModel,
    t: Seq<u8>,
    id: int,
    c: Seq<u8>,
    owner: bool,
    now: u64,
)
    requires
        valid_model(m),
        toggle_check(m, t, id, c, true, owner, now) is Ok,
    ensures
        ({
            let m1 = toggle_apply(m, t, id, c, true);
            &&& index_of(m1, t, id, c) == Some(sale_of(m, t, id)->0.allowed.len() + 1int)
            &&& toggle_check(m1, t, id, c, true, owner, now) == Err::<(), StoError>(
                StoError::NoChange,
            )
            &&& toggle_check(m1, t, id, c, false, owner, now) is Ok
            &&& toggle_apply(m1, t, id, c, false) == m
            &&& index_of(toggle_apply(m1, t, id, c, false), t, id, c) is None
        }),
{
    let s = sale_of(m, t, id)->0;
    assert(m.contains_key(t));
    assert(sale_valid(m[t][id]));
    let a1 = s.allowed.push(c);
    let n = s.allowed.len() as int;
    assert(a1[n] == c);
    assert(a1.contains(c));
    assert(a1.index_of(c) == n) by {
        let k = a1.index_of(c);
        if k != n {
            assert(s.allowed[k] == c);
            assert(s.allowed.contains(c));
        }
    }
    assert(a1.remove(n) =~= s.allowed);
    let m1 = toggle_apply(m, t, id, c, true);
    assert(sale_of(m1, t, id) == Some(
        SaleView { sto: s.sto, allowed: a1, investments: s.investments },
    ));
    let m2 = toggle_apply(m1, t, id, c, false);
    let s2 = SaleView { sto: s.sto, allowed: a1.remove(a1.index_of(c)), investments: s.investments };
    assert(s2 == s);
    assert(m2 == m1.insert(t, sales_of(m1, t).update(id, s2)));
    assert(sales_of(m1, t).update(id, s2) =~= sales_of(m, t));
    assert(m2 =~= m);
}

/// A commit whose mint or payment failed is refused with `MintFailed` or
/// `PaymentFailed` (and so changes nothing), whatever the state.
pub proof fn lemma_atomic_purchase(m: SalesModel, t: Seq<u8>, id: int, tokens: int, paid: bool)
    ensures
        settle_check(m, t, id, tokens, false, paid) == Err::<(), StoError>(StoError::MintFailed),
        settle_check(m, t, id, tokens, true, false) == Err::<(), StoError>(
            StoError::PaymentFailed,
        ),
{
}

/// Only the owner of a ticker may launch its sales or change their
/// allow-lists: anyone else is refused with `Unauthorized` (and so changes
/// nothing).
pub proof fn lemma_owner_only(
    m: SalesModel,
    t: Seq<u8>,
    id: int,
    c: Seq<u8>,
    desired: bool,
    now: u64,
)
    ensures
        launch_check(m, t, false) == Err::<(), StoError>(StoError::Unauthorized),
        toggle_check(m, t, id, c, desired, false, now) == Err::<(), StoError>(
            StoError::Unauthorized,
        ),
{
}

} // verus!
