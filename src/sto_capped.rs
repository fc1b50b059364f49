use vstd::prelude::*;

use crate::registry;
use crate::registry::RegistryEntry;
use crate::utils::{bytes_eq, bytes_to_upper, upper};

verus! {

/// The terms and running total of one capped sale.
#[derive(Clone, Copy, Debug, PartialEq, Eq, Structural)]
pub struct STO {
    /// Account that receives the payments.
    pub beneficiary: u64,
    /// Most token units the sale may ever sell.
    pub cap: u128,
    /// Token units sold so far.
    pub sold: u128,
    /// Token units handed out per unit paid.
    pub rate: u64,
    pub start_date: u64,
    pub end_date: u64,
    pub active: bool,
}

/// One committed purchase.
#[derive(Clone, Copy, Debug, PartialEq, Eq, Structural)]
pub struct Investment {
    pub investor: u64,
    pub amount_payed: u128,
    pub tokens_purchased: u128,
    pub purchase_date: u64,
}

/// Why an operation on a sale was refused. A refused operation changes no
/// state.
#[derive(Clone, Copy, Debug, PartialEq, Eq, Structural)]
pub enum StoError {
    Unauthorized,
    NotFound,
    NotOpen,
    AlreadyStarted,
    NotActive,
    InsufficientFunds,
    CurrencyNotAllowed,
    CapExceeded,
    NoChange,
    Overflow,
    MintFailed,
    PaymentFailed,
}

/// The abstract state of one sale: its terms, its accepted secondary
/// currencies in position order (position `k + 1` holds `allowed[k]`), and
/// its committed purchases.
pub struct SaleView {
    pub sto: STO,
    pub allowed: Seq<Seq<u8>>,
    pub investments: Seq<Investment>,
}

/// The abstract state of the engine: for each canonical ticker, its sales
/// in the order they were launched (a sale's id is its position).
pub type SalesModel = Map<Seq<u8>, Seq<SaleView>>;

pub open spec fn sales_of(m: SalesModel, t: Seq<u8>) -> Seq<SaleView> {
    if m.contains_key(t) {
        m[t]
    } else {
        Seq::empty()
    }
}

pub open spec fn sale_of(m: SalesModel, t: Seq<u8>, id: int) -> Option<SaleView> {
    if 0 <= id < sales_of(m, t).len() {
        Some(sales_of(m, t)[id])
    } else {
        None
    }
}

/// `m` with sale `id` of `t` replaced by `s`.
pub open spec fn with_sale(m: SalesModel, t: Seq<u8>, id: int, s: SaleView) -> SalesModel {
    m.insert(t, sales_of(m, t).update(id, s))
}

/// The 1-based position of currency `c` in an allow-list, if it is there.
pub open spec fn position_of(allowed: Seq<Seq<u8>>, c: Seq<u8>) -> Option<int> {
    if allowed.contains(c) {
        Some(allowed.index_of(c) + 1)
    } else {
        None
    }
}

/// The position of currency `c` in the allow-list of sale `id` of `t`.
pub open spec fn index_of(m: SalesModel, t: Seq<u8>, id: int, c: Seq<u8>) -> Option<int> {
    match sale_of(m, t, id) {
        Some(s) => position_of(s.allowed, c),
        None => None,
    }
}

/// What every sale satisfies: nothing sold beyond the cap, and an
/// allow-list without repeats whose positions fit in a `u32`.
pub open spec fn sale_valid(s: SaleView) -> bool {
    &&& s.sto.sold <= s.sto.cap
    &&& s.allowed.len() <= u32::MAX
    &&& s.allowed.no_duplicates()
}

/// Every sale is valid, and the sale ids of each ticker fit in a `u32`.
pub open spec fn valid_model(m: SalesModel) -> bool {
    &&& forall|t: Seq<u8>| #[trigger] m.contains_key(t) ==> m[t].len() <= u32::MAX
    &&& forall|t: Seq<u8>, id: int|
        m.contains_key(t) && 0 <= id < m[t].len() ==> sale_valid(#[trigger] m[t][id])
}

/// Whether `sender` is the registered owner of the canonical ticker `t`.
pub open spec fn owns(reg: Map<Seq<u8>, RegistryEntry>, t: Seq<u8>, sender: u64) -> bool {
    reg.contains_key(t) && reg[t].owner == sender
}

/// The state of a sale just launched.
pub open spec fn fresh_sale(
    beneficiary: u64,
    cap: u128,
    rate: u64,
    start_date: u64,
    end_date: u64,
) -> SaleView {
    SaleView {
        sto: STO { beneficiary, cap, sold: 0, rate, start_date, end_date, active: true },
        allowed: Seq::empty(),
        investments: Seq::empty(),
    }
}

/// Whether a launch for `t` goes through, given whether the caller owns it.
pub open spec fn launch_check(m: SalesModel, t: Seq<u8>, owner: bool) -> Result<(), StoError> {
    if !owner {
        Err(StoError::Unauthorized)
    } else if sales_of(m, t).len() >= u32::MAX {
        Err(StoError::Overflow)
    } else {
        Ok(())
    }
}

/// `m` after sale `s` was launched for `t`.
pub open spec fn launched(m: SalesModel, t: Seq<u8>, s: SaleView) -> SalesModel {
    m.insert(t, sales_of(m, t).push(s))
}

/// Whether a change of membership of currency `c` in the allow-list of sale
/// `id` of `t` goes through, given whether the caller owns `t` and the time.
pub open spec fn toggle_check(
    m: SalesModel,
    t: Seq<u8>,
    id: int,
    c: Seq<u8>,
    desired: bool,
    owner: bool,
    now: u64,
) -> Result<(), StoError> {
    if !owner {
        Err(StoError::Unauthorized)
    } else {
        match sale_of(m, t, id) {
            None => Err(StoError::NotFound),
            Some(s) => if !(now < s.sto.start_date || !s.sto.active) {
                Err(StoError::AlreadyStarted)
            } else if s.allowed.contains(c) == desired {
                Err(StoError::NoChange)
            } else if desired && s.allowed.len() >= u32::MAX {
                Err(StoError::Overflow)
            } else {
                Ok(())
            },
        }
    }
}

/// An allow-list after `c` was added at the end (`desired`) or taken out,
/// the later entries moving up one position.
pub open spec fn toggled(allowed: Seq<Seq<u8>>, c: Seq<u8>, desired: bool) -> Seq<Seq<u8>> {
    if desired {
        allowed.push(c)
    } else {
        allowed.remove(allowed.index_of(c))
    }
}

/// `m` after the membership of `c` in the allow-list of sale `id` of `t`
/// was changed.
pub open spec fn toggle_apply(
    m: SalesModel,
    t: Seq<u8>,
    id: int,
    c: Seq<u8>,
    desired: bool,
) -> SalesModel {
    match sale_of(m, t, id) {
        Some(s) => with_sale(
            m,
            t,
            id,
            SaleView {
                sto: s.sto,
                allowed: toggled(s.allowed, c, desired),
                investments: s.investments,
            },
        ),
        None => m,
    }
}

/// Whether a purchase of `value` against sale `s` is admitted at time
/// `now` from a payer holding `balance`, and if so how many token units it
/// buys.
pub open spec fn admission(s: Option<SaleView>, now: u64, balance: u128, value: u128) -> Result<
    int,
    StoError,
> {
    match s {
        None => Err(StoError::NotFound),
        Some(s) => if now < s.sto.start_date || now > s.sto.end_date {
            Err(StoError::NotOpen)
        } else if !s.sto.active {
            Err(StoError::NotActive)
        } else if balance < value {
            Err(StoError::InsufficientFunds)
        } else if value * s.sto.rate > u128::MAX {
            Err(StoError::Overflow)
        } else if s.sto.sold + value * s.sto.rate > u128::MAX {
            Err(StoError::Overflow)
        } else if s.sto.sold + value * s.sto.rate > s.sto.cap {
            Err(StoError::CapExceeded)
        } else {
            Ok(value * s.sto.rate)
        },
    }
}

/// Admission of a purchase paid in the secondary currency `c`: the
/// currency must be on the sale's allow-list.
pub open spec fn currency_admission(
    m: SalesModel,
    t: Seq<u8>,
    id: int,
    c: Seq<u8>,
    now: u64,
    balance: u128,
    value: u128,
) -> Result<int, StoError> {
    if index_of(m, t, id, c) is None {
        Err(StoError::CurrencyNotAllowed)
    } else {
        admission(sale_of(m, t, id), now, balance, value)
    }
}

/// Whether a purchase of `tokens` units against sale `id` of `t` is
/// committed, given whether its mint and its payment went through.
pub open spec fn settle_check(
    m: SalesModel,
    t: Seq<u8>,
    id: int,
    tokens: int,
    minted: bool,
    paid: bool,
) -> Result<(), StoError> {
    if !minted {
        Err(StoError::MintFailed)
    } else if !paid {
        Err(StoError::PaymentFailed)
    } else {
        match sale_of(m, t, id) {
            None => Err(StoError::NotFound),
            Some(s) => if s.sto.sold + tokens > u128::MAX {
                Err(StoError::Overflow)
            } else if s.sto.sold + tokens > s.sto.cap {
                Err(StoError::CapExceeded)
            } else {
                Ok(())
            },
        }
    }
}

/// `m` after the purchase `inv` against sale `id` of `t` was committed:
/// `sold` grows by the tokens bought and the purchase is recorded.
pub open spec fn settled(m: SalesModel, t: Seq<u8>, id: int, inv: Investment) -> SalesModel {
    match sale_of(m, t, id) {
        Some(s) => with_sale(
            m,
            t,
            id,
            SaleView {
                sto: STO { sold: (s.sto.sold + inv.tokens_purchased) as u128, ..s.sto },
                allowed: s.allowed,
                investments: s.investments.push(inv),
            },
        ),
        None => m,
    }
}

/// An admitted purchase, staged: the engine has checked it, and the token
/// ledger is to mint `tokens` to `investor` while `value` is paid (in
/// `currency`, or natively where that is `None`) to `beneficiary`. It is
/// committed by `Module::settle_purchase`.
#[derive(Clone, Debug)]
pub struct Purchase {
    pub ticker: Vec<u8>,
    pub sto_id: u32,
    pub investor: u64,
    pub beneficiary: u64,
    pub currency: Option<Vec<u8>>,
    pub value: u128,
    pub tokens: u128,
    pub purchase_date: u64,
}

/// The record that committing `p` adds to its sale.
pub open spec fn investment_of(p: Purchase) -> Investment {
    Investment {
        investor: p.investor,
        amount_payed: p.value,
        tokens_purchased: p.tokens,
        purchase_date: p.purchase_date,
    }
}

/// Notifications for outside observers.
#[derive(Clone, Debug, PartialEq, Eq)]
pub enum Event {
    /// Ticker, currency, sale id and whether the currency is now allowed.
    ModifyAllowedTokens(Vec<u8>, Vec<u8>, u32, bool),
    /// Ticker, sale id, investor, amount paid and tokens bought.
    Invested(Vec<u8>, u32, u64, u128, u128),
}

struct SaleState {
    sto: STO,
    allowed: Vec<Vec<u8>>,
    investments: Vec<Investment>,
}

impl SaleState {
    spec fn view(&self) -> SaleView {
        SaleView {
            sto: self.sto,
            allowed: self.allowed@.map_values(|c: Vec<u8>| c@),
            investments: self.investments@,
        }
    }
}

struct TokenSales {
    ticker: Vec<u8>,
    sales: Vec<SaleState>,
}

impl TokenSales {
    spec fn sales_view(&self) -> Seq<SaleView> {
        self.sales@.map_values(|s: SaleState| s.view())
    }
}

/// Each stored ticker is in the model with the view of its sales, and each
/// key of the model is stored.
spec fn linked(tokens: Seq<TokenSales>, m: SalesModel) -> bool {
    &&& forall|i: int|
        0 <= i < tokens.len() ==> {
            &&& #[trigger] m.contains_key(tokens[i].ticker@)
            &&& m[tokens[i].ticker@] == tokens[i].sales_view()
        }
    &&& forall|k: Seq<u8>|
        #[trigger] m.contains_key(k) ==> exists|i: int|
            0 <= i < tokens.len() && #[trigger] tokens[i].ticker@ == k
    &&& forall|i: int, j: int|
        0 <= i < tokens.len() && 0 <= j < tokens.len() && i != j ==> #[trigger] tokens[i].ticker@
            != #[trigger] tokens[j].ticker@
}

proof fn lemma_linked_update(
    tokens: Seq<TokenSales>,
    m: SalesModel,
    i: int,
    ts: TokenSales,
)
    requires
        linked(tokens, m),
        0 <= i < tokens.len(),
        ts.ticker@ == tokens[i].ticker@,
    ensures
        linked(tokens.update(i, ts), m.insert(ts.ticker@, ts.sales_view())),
{
    let nt = tokens.update(i, ts);
    let nm = m.insert(ts.ticker@, ts.sales_view());
    assert forall|k: Seq<u8>| #[trigger] nm.contains_key(k) implies exists|j: int|
        0 <= j < nt.len() && #[trigger] nt[j].ticker@ == k by {
        if k == ts.ticker@ {
            assert(nt[i].ticker@ == k);
        } else {
            let j = choose|j: int| 0 <= j < tokens.len() && #[trigger] tokens[j].ticker@ == k;
            assert(nt[j].ticker@ == k);
        }
    }
}

proof fn lemma_linked_push(tokens: Seq<TokenSales>, m: SalesModel, ts: TokenSales)
    requires
        linked(tokens, m),
        !m.contains_key(ts.ticker@),
    ensures
        linked(tokens.push(ts), m.insert(ts.ticker@, ts.sales_view())),
{
    let nt = tokens.push(ts);
    let nm = m.insert(ts.ticker@, ts.sales_view());
    assert forall|k: Seq<u8>| #[trigger] nm.contains_key(k) implies exists|j: int|
        0 <= j < nt.len() && #[trigger] nt[j].ticker@ == k by {
        if k == ts.ticker@ {
            assert(nt[tokens.len() as int].ticker@ == k);
        } else {
            let j = choose|j: int| 0 <= j < tokens.len() && #[trigger] tokens[j].ticker@ == k;
            assert(nt[j].ticker@ == k);
        }
    }
    assert forall|a: int, b: int|
        0 <= a < nt.len() && 0 <= b < nt.len() && a != b implies #[trigger] nt[a].ticker@
        != #[trigger] nt[b].ticker@ by {
        if a < tokens.len() {
            assert(m.contains_key(tokens[a].ticker@));
        }
        if b < tokens.len() {
            assert(m.contains_key(tokens[b].ticker@));
        }
    }
}

/// Position of currency `c` in a stored allow-list.
fn find_currency(allowed: &Vec<Vec<u8>>, c: &Vec<u8>) -> (r: Option<usize>)
    ensures
        match r {
            Some(k) => k < allowed@.len() && allowed@[k as int]@ == c@,
            None => !allowed@.map_values(|v: Vec<u8>| v@).contains(c@),
        },
{
    let mut k: usize = 0;
    while k < allowed.len()
        invariant
            k <= allowed@.len(),
            forall|q: int| 0 <= q < k ==> allowed@[q]@ != c@,
        decreases allowed@.len() - k,
    {
        if bytes_eq(&allowed[k], c) {
            return Some(k);
        }
        k = k + 1;
    }
    proof {
        let v = allowed@.map_values(|v: Vec<u8>| v@);
        assert forall|q: int| 0 <= q < v.len() implies v[q] != c@ by {
            assert(v[q] == allowed@[q]@);
        }
    }
    None
}

/// In a list without repeats, the index of an element is where it stands.
proof fn lemma_index_of_unique(s: Seq<Seq<u8>>, k: int)
    requires
        s.no_duplicates(),
        0 <= k < s.len(),
    ensures
        s.contains(s[k]),
        s.index_of(s[k]) == k,
{
    assert(s.contains(s[k]));
}

proof fn lemma_replace_sale(
    tokens: Seq<TokenSales>,
    m: SalesModel,
    i: int,
    j: int,
    ts: TokenSales,
    ns: SaleState,
)
    requires
        linked(tokens, m),
        valid_model(m),
        0 <= i < tokens.len(),
        0 <= j < tokens[i].sales@.len(),
        ts.ticker@ == tokens[i].ticker@,
        ts.sales@ == tokens[i].sales@.update(j, ns),
        sale_valid(ns.view()),
    ensures
        linked(tokens.update(i, ts), with_sale(m, tokens[i].ticker@, j, ns.view())),
        valid_model(with_sale(m, tokens[i].ticker@, j, ns.view())),
{
    let t = tokens[i].ticker@;
    assert(m.contains_key(t));
    assert(ts.sales_view() =~= sales_of(m, t).update(j, ns.view()));
    lemma_linked_update(tokens, m, i, ts);
    let nm = with_sale(m, t, j, ns.view());
    assert(nm == m.insert(ts.ticker@, ts.sales_view()));
    assert forall|k: Seq<u8>, id: int|
        nm.contains_key(k) && 0 <= id < nm[k].len() implies sale_valid(#[trigger] nm[k][id]) by {
        if k != t {
            assert(nm[k] == m[k]);
        } else if id != j {
            assert(nm[k][id] == m[k][id]);
        }
    }
}

/// The sale engine: sales by ticker, their allow-lists and purchases.
pub struct Module {
    tokens: Vec<TokenSales>,
    model: Ghost<SalesModel>,
}

impl View for Module {
    type V = SalesModel;

    closed spec fn view(&self) -> SalesModel {
        self.model@
    }
}

impl Module {
    /// The stored sales agree with the model, and the model is valid.
    pub closed spec fn wf(&self) -> bool {
        &&& linked(self.tokens@, self.model@)
        &&& valid_model(self.model@)
    }

    /// An engine with no sales.
    pub fn new() -> (r: Module)
        ensures
            r.wf(),
            r@ == SalesModel::empty(),
    {
        Module { tokens: Vec::new(), model: Ghost(Map::empty()) }
    }

    /// Whether `sender` owns `ticker` in `registry`, compared without regard
    /// to case. An unregistered ticker has no owner.
    pub fn is_owner(registry: &registry::Module, ticker: Vec<u8>, sender: u64) -> (r: bool)
        requires
            registry.wf(),
        ensures
            r == owns(registry@, upper(ticker@), sender),
    {
        match registry.get(ticker) {
            Some(e) => e.owner == sender,
            None => false,
        }
    }

    /// Position of the canonical ticker `t` among the stored tickers.
    fn find_token(&self, t: &Vec<u8>) -> (r: Option<usize>)
        requires
            self.wf(),
        ensures
            match r {
                Some(i) => i < self.tokens@.len() && self.tokens@[i as int].ticker@ == t@,
                None => !self@.contains_key(t@),
            },
    {
        let mut i: usize = 0;
        while i < self.tokens.len()
            invariant
                i <= self.tokens@.len(),
                forall|j: int| 0 <= j < i ==> self.tokens@[j].ticker@ != t@,
            decreases self.tokens@.len() - i,
        {
            if bytes_eq(&self.tokens[i].ticker, t) {
                return Some(i);
            }
            i = i + 1;
        }
        None
    }

    /// Where sale `id` of the canonical ticker `t` is stored.
    fn locate(&self, t: &Vec<u8>, id: u32) -> (r: Option<(usize, usize)>)
        requires
            self.wf(),
        ensures
            match r {
                Some((i, j)) => {
                    &&& i < self.tokens@.len()
                    &&& self.tokens@[i as int].ticker@ == t@
                    &&& j == id
                    &&& j < self.tokens@[i as int].sales@.len()
                    &&& sale_of(self@, t@, id as int) == Some(
                        self.tokens@[i as int].sales@[j as int].view(),
                    )
                },
                None => sale_of(self@, t@, id as int) is None,
            },
    {
        match self.find_token(t) {
            None => None,
            Some(i) => {
                proof {
                    assert(self.model@.contains_key(self.tokens@[i as int].ticker@));
                }
                if (id as usize) < self.tokens[i].sales.len() {
                    Some((i, id as usize))
                } else {
                    None
                }
            },
        }
    }

    /// Adds currency `erc20_ticker` to the allow-list of sale `sto_id` of
    /// `ticker` (`modify_status`), at the next position, or takes it out,
    /// the later currencies moving up one position. Only the owner of the
    /// ticker may do so, and only before the sale starts or while it is not
    /// active. Tickers and currencies are compared without regard to case.
    pub fn modify_allowed_tokens(
        &mut self,
        registry: &registry::Module,
        sender: u64,
        ticker: Vec<u8>,
        sto_id: u32,
        erc20_ticker: Vec<u8>,
        modify_status: bool,
        now: u64,
    ) -> (r: Result<Event, StoError>)
        requires
            old(self).wf(),
            registry.wf(),
        ensures
            final(self).wf(),
            ({
                let t = upper(ticker@);
                let c = upper(erc20_ticker@);
                let chk = toggle_check(
                    old(self)@,
                    t,
                    sto_id as int,
                    c,
                    modify_status,
                    owns(registry@, t, sender),
                    now,
                );
                match r {
                    Ok(ev) => {
                        &&& chk is Ok
                        &&& final(self)@ == toggle_apply(old(self)@, t, sto_id as int, c, modify_status)
                        &&& ev matches Event::ModifyAllowedTokens(a, b, id, st)
                        &&& a@ == t && b@ == c && id == sto_id && st == modify_status
                    },
                    Err(e) => chk == Err::<(), StoError>(e) && final(self)@ == old(self)@,
                }
            }),
    {
        let owner = Self::is_owner(registry, ticker.clone(), sender);
        let t = bytes_to_upper(ticker.as_slice());
        let c = bytes_to_upper(erc20_ticker.as_slice());
        if !owner {
            return Err(StoError::Unauthorized);
        }
        let (i, j) = match self.locate(&t, sto_id) {
            None => {
                return Err(StoError::NotFound);
            },
            Some(p) => p,
        };
        let sto = self.tokens[i].sales[j].sto;
        if !(now < sto.start_date || !sto.active) {
            return Err(StoError::AlreadyStarted);
        }
        let found = find_currency(&self.tokens[i].sales[j].allowed, &c);
        let ghost m0 = self.model@;
        let ghost old_tokens = self.tokens@;
        let ghost sv = old_tokens[i as int].sales@[j as int].view();
        proof {
            assert(m0.contains_key(t@));
            assert(m0[t@][j as int] == sv);
            assert(sale_valid(sv));
            if let Some(k) = found {
                assert(sv.allowed[k as int] == c@);
            }
        }
        if found.is_some() == modify_status {
            return Err(StoError::NoChange);
        }
        if modify_status {
            if self.tokens[i].sales[j].allowed.len() >= 4294967295 {
                return Err(StoError::Overflow);
            }
            let c2 = c.clone();
            assert(c2@ =~= c@);
            self.tokens[i].sales[j].allowed.push(c2);
            proof {
                let ns = self.tokens@[i as int].sales@[j as int];
                assert(ns.view().allowed =~= sv.allowed.push(c@));
                assert(ns.view().allowed.no_duplicates());
            }
        } else {
            let k = found.unwrap();
            self.tokens[i].sales[j].allowed.remove(k);
            proof {
                let ns = self.tokens@[i as int].sales@[j as int];
                lemma_index_of_unique(sv.allowed, k as int);
                assert(ns.view().allowed =~= sv.allowed.remove(k as int));
                sv.allowed.remove_ensures(k as int);
                let na = ns.view().allowed;
                assert forall|a: int, b: int|
                    0 <= a < na.len() && 0 <= b < na.len() && a != b implies na[a] != na[b] by {
                    let a2 = if a < k { a } else { a + 1 };
                    let b2 = if b < k { b } else { b + 1 };
                    assert(na[a] == sv.allowed[a2]);
                    assert(na[b] == sv.allowed[b2]);
                }
            }
        }
        proof {
            let ts = self.tokens@[i as int];
            let ns = ts.sales@[j as int];
            assert(ts.sales@ == old_tokens[i as int].sales@.update(j as int, ns));
            assert(self.tokens@ == old_tokens.update(i as int, ts));
            lemma_replace_sale(old_tokens, m0, i as int, j as int, ts, ns);
            self.model@ = with_sale(m0, t@, j as int, ns.view());
            assert(ns.view() == SaleView {
                sto: sv.sto,
                allowed: toggled(sv.allowed, c@, modify_status),
                investments: sv.investments,
            });
        }
        Ok(Event::ModifyAllowedTokens(t, c, sto_id, modify_status))
    }

    /// The admission core shared by both ways of paying: checks the sale
    /// and prices the purchase for the canonical ticker `t`.
    fn stage_purchase(
        &self,
        sender: u64,
        t: Vec<u8>,
        sto_id: u32,
        value: u128,
        currency: Option<Vec<u8>>,
        now: u64,
        sender_balance: u128,
    ) -> (r: Result<Purchase, StoError>)
        requires
            self.wf(),
        ensures
            ({
                let a = admission(sale_of(self@, t@, sto_id as int), now, sender_balance, value);
                match r {
                    Ok(p) => {
                        &&& a == Ok::<int, StoError>(p.tokens as int)
                        &&& p.ticker@ == t@
                        &&& p.sto_id == sto_id
                        &&& p.investor == sender
                        &&& p.beneficiary == sale_of(self@, t@, sto_id as int)->0.sto.beneficiary
                        &&& p.currency == currency
                        &&& p.value == value
                        &&& p.purchase_date == now
                    },
                    Err(e) => a == Err::<int, StoError>(e),
                }
            }),
    {
        let (i, j) = match self.locate(&t, sto_id) {
            None => {
                return Err(StoError::NotFound);
            },
            Some(p) => p,
        };
        let sto = self.tokens[i].sales[j].sto;
        if now < sto.start_date || now > sto.end_date {
            return Err(StoError::NotOpen);
        }
        if !sto.active {
            return Err(StoError::NotActive);
        }
        if sender_balance < value {
            return Err(StoError::InsufficientFunds);
        }
        let tokens = match value.checked_mul(sto.rate as u128) {
            None => {
                return Err(StoError::Overflow);
            },
            Some(x) => x,
        };
        let new_sold = match sto.sold.checked_add(tokens) {
            None => {
                return Err(StoError::Overflow);
            },
            Some(x) => x,
        };
        if new_sold > sto.cap {
            return Err(StoError::CapExceeded);
        }
        Ok(
            Purchase {
                ticker: t,
                sto_id,
                investor: sender,
                beneficiary: sto.beneficiary,
                currency,
                value,
                tokens,
                purchase_date: now,
            },
        )
    }

    /// Checks and prices a purchase of sale `sto_id` of `ticker` paid with
    /// `value` in the native currency, by `sender`, who holds
    /// `sender_balance` of it, at time `now`. The sale must be open and
    /// active, and `value * rate` token units must still fit under the cap.
    /// Nothing changes here: the admitted purchase is returned staged, to be
    /// committed by `settle_purchase` once minted and paid.
    pub fn buy_tokens(
        &self,
        sender: u64,
        ticker: Vec<u8>,
        sto_id: u32,
        value: u128,
        now: u64,
        sender_balance: u128,
    ) -> (r: Result<Purchase, StoError>)
        requires
            self.wf(),
        ensures
            ({
                let t = upper(ticker@);
                let a = admission(sale_of(self@, t, sto_id as int), now, sender_balance, value);
                match r {
                    Ok(p) => {
                        &&& a == Ok::<int, StoError>(p.tokens as int)
                        &&& p.ticker@ == t
                        &&& p.sto_id == sto_id
                        &&& p.investor == sender
                        &&& p.beneficiary == sale_of(self@, t, sto_id as int)->0.sto.beneficiary
                        &&& p.currency is None
                        &&& p.value == value
                        &&& p.purchase_date == now
                    },
                    Err(e) => a == Err::<int, StoError>(e),
                }
            }),
    {
        let t = bytes_to_upper(ticker.as_slice());
        self.stage_purchase(sender, t, sto_id, value, None, now, sender_balance)
    }

    /// As `buy_tokens`, paid with `value` units of the secondary currency
    /// `erc20_ticker`, which must be on the sale's allow-list; the payer
    /// holds `sender_balance` of that currency.
    pub fn buy_tokens_by_erc20(
        &self,
        sender: u64,
        ticker: Vec<u8>,
        sto_id: u32,
        value: u128,
        erc20_ticker: Vec<u8>,
        now: u64,
        sender_balance: u128,
    ) -> (r: Result<Purchase, StoError>)
        requires
            self.wf(),
        ensures
            ({
                let t = upper(ticker@);
                let c = upper(erc20_ticker@);
                let a = currency_admission(self@, t, sto_id as int, c, now, sender_balance, value);
                match r {
                    Ok(p) => {
                        &&& a == Ok::<int, StoError>(p.tokens as int)
                        &&& p.ticker@ == t
                        &&& p.sto_id == sto_id
                        &&& p.investor == sender
                        &&& p.beneficiary == sale_of(self@, t, sto_id as int)->0.sto.beneficiary
                        &&& p.currency matches Some(pc) && pc@ == c
                        &&& p.value == value
                        &&& p.purchase_date == now
                    },
                    Err(e) => a == Err::<int, StoError>(e),
                }
            }),
    {
        let t = bytes_to_upper(ticker.as_slice());
        let c = bytes_to_upper(erc20_ticker.as_slice());
        match self.locate(&t, sto_id) {
            None => {
                return Err(StoError::CurrencyNotAllowed);
            },
            Some((i, j)) => {
                let found = find_currency(&self.tokens[i].sales[j].allowed, &c);
                let ghost sv = self.tokens@[i as int].sales@[j as int].view();
                if found.is_none() {
                    return Err(StoError::CurrencyNotAllowed);
                }
                proof {
                    let k = found->0 as int;
                    assert(sv.allowed[k] == c@);
                    assert(sv.allowed.contains(c@));
                }
            },
        }
        self.stage_purchase(sender, t, sto_id, value, Some(c), now, sender_balance)
    }

    /// Commits the staged purchase `p`, given whether its mint (`minted`)
    /// and its payment (`paid`) went through: only when both did, the
    /// sale's `sold` grows by `p.tokens` and the purchase is recorded. On
    /// any error nothing changes, and the caller undoes whichever of the
    /// two effects took place. The cap is checked again against the current
    /// state.
    pub fn settle_purchase(&mut self, p: &Purchase, minted: bool, paid: bool) -> (r: Result<
        Event,
        StoError,
    >)
        requires
            old(self).wf(),
        ensures
            final(self).wf(),
            ({
                let chk = settle_check(
                    old(self)@,
                    p.ticker@,
                    p.sto_id as int,
                    p.tokens as int,
                    minted,
                    paid,
                );
                match r {
                    Ok(ev) => {
                        &&& chk is Ok
                        &&& final(self)@ == settled(
                            old(self)@,
                            p.ticker@,
                            p.sto_id as int,
                            investment_of(*p),
                        )
                        &&& ev matches Event::Invested(a, id, inv, v, tk)
                        &&& a@ == p.ticker@ && id == p.sto_id && inv == p.investor && v == p.value
                            && tk == p.tokens
                    },
                    Err(e) => chk == Err::<(), StoError>(e) && final(self)@ == old(self)@,
                }
            }),
    {
        if !minted {
            return Err(StoError::MintFailed);
        }
        if !paid {
            return Err(StoError::PaymentFailed);
        }
        let (i, j) = match self.locate(&p.ticker, p.sto_id) {
            None => {
                return Err(StoError::NotFound);
            },
            Some(x) => x,
        };
        let sto = self.tokens[i].sales[j].sto;
        let new_sold = match sto.sold.checked_add(p.tokens) {
            None => {
                return Err(StoError::Overflow);
            },
            Some(x) => x,
        };
        if new_sold > sto.cap {
            return Err(StoError::CapExceeded);
        }
        let inv = Investment {
            investor: p.investor,
            amount_payed: p.value,
            tokens_purchased: p.tokens,
            purchase_date: p.purchase_date,
        };
        let ghost m0 = self.model@;
        let ghost old_tokens = self.tokens@;
        let ghost sv = old_tokens[i as int].sales@[j as int].view();
        proof {
            assert(m0.contains_key(p.ticker@));
            assert(m0[p.ticker@][j as int] == sv);
            assert(sale_valid(sv));
        }
        self.tokens[i].sales[j].sto.sold = new_sold;
        self.tokens[i].sales[j].investments.push(inv);
        proof {
            let ts = self.tokens@[i as int];
            let ns = ts.sales@[j as int];
            assert(ns.view().allowed =~= sv.allowed);
            assert(ts.sales@ == old_tokens[i as int].sales@.update(j as int, ns));
            assert(self.tokens@ == old_tokens.update(i as int, ts));
            lemma_replace_sale(old_tokens, m0, i as int, j as int, ts, ns);
            self.model@ = with_sale(m0, p.ticker@, j as int, ns.view());
        }
        let a = p.ticker.clone();
        assert(a@ =~= p.ticker@);
        Ok(Event::Invested(a, p.sto_id, p.investor, p.value, p.tokens))
    }

    /// How many sales `ticker` has had; the next sale gets this id.
    pub fn sto_count(&self, ticker: Vec<u8>) -> (r: u32)
        requires
            self.wf(),
        ensures
            r == sales_of(self@, upper(ticker@)).len(),
    {
        let t = bytes_to_upper(ticker.as_slice());
        match self.find_token(&t) {
            None => 0,
            Some(i) => {
                proof {
                    assert(self.model@.contains_key(t@));
                }
                self.tokens[i].sales.len() as u32
            },
        }
    }

    /// The terms and running total of sale `sto_id` of `ticker`.
    pub fn stos_by_token(&self, ticker: Vec<u8>, sto_id: u32) -> (r: Option<STO>)
        requires
            self.wf(),
        ensures
            match sale_of(self@, upper(ticker@), sto_id as int) {
                Some(s) => r == Some(s.sto),
                None => r is None,
            },
    {
        let t = bytes_to_upper(ticker.as_slice());
        match self.locate(&t, sto_id) {
            None => None,
            Some((i, j)) => Some(self.tokens[i].sales[j].sto),
        }
    }

    /// The 1-based position of currency `erc20_ticker` in the allow-list of
    /// sale `sto_id` of `ticker`; `None` when it is not accepted.
    pub fn token_index_for_sto(&self, ticker: Vec<u8>, sto_id: u32, erc20_ticker: Vec<u8>) -> (r:
        Option<u32>)
        requires
            self.wf(),
        ensures
            match index_of(self@, upper(ticker@), sto_id as int, upper(erc20_ticker@)) {
                Some(p) => r == Some(p as u32) && p <= u32::MAX,
                None => r is None,
            },
    {
        let t = bytes_to_upper(ticker.as_slice());
        let c = bytes_to_upper(erc20_ticker.as_slice());
        match self.locate(&t, sto_id) {
            None => None,
            Some((i, j)) => {
                let ghost sv = self.tokens@[i as int].sales@[j as int].view();
                proof {
                    assert(self.model@.contains_key(t@));
                    assert(self.model@[t@][j as int] == sv);
                    assert(sale_valid(sv));
                }
                match find_currency(&self.tokens[i].sales[j].allowed, &c) {
                    None => None,
                    Some(k) => {
                        proof {
                            assert(sv.allowed[k as int] == c@);
                            lemma_index_of_unique(sv.allowed, k as int);
                        }
                        Some((k + 1) as u32)
                    },
                }
            },
        }
    }

    /// The currency at 1-based position `index` of the allow-list of sale
    /// `sto_id` of `ticker`, if that position is taken.
    pub fn allowed_tokens(&self, ticker: Vec<u8>, sto_id: u32, index: u32) -> (r: Option<Vec<u8>>)
        requires
            self.wf(),
        ensures
            match sale_of(self@, upper(ticker@), sto_id as int) {
                Some(s) => if 1 <= index <= s.allowed.len() {
                    r matches Some(c) && c@ == s.allowed[index - 1]
                } else {
                    r is None
                },
                None => r is None,
            },
    {
        let t = bytes_to_upper(ticker.as_slice());
        match self.locate(&t, sto_id) {
            None => None,
            Some((i, j)) => {
                if index == 0 || index as usize > self.tokens[i].sales[j].allowed.len() {
                    None
                } else {
                    let c = self.tokens[i].sales[j].allowed[(index - 1) as usize].clone();
                    proof {
                        let sv = self.tokens@[i as int].sales@[j as int].view();
                        assert(sv.allowed[index - 1] == self.tokens@[i as int].sales@[
                            j as int].allowed@[index - 1]@);
                    }
                    assert(c@ =~= self.tokens@[i as int].sales@[j as int].allowed@[index - 1]@);
                    Some(c)
                }
            },
        }
    }

    /// How many currencies the allow-list of sale `sto_id` of `ticker`
    /// holds (none for a sale that does not exist).
    pub fn tokens_count_for_sto(&self, ticker: Vec<u8>, sto_id: u32) -> (r: u32)
        requires
            self.wf(),
        ensures
            match sale_of(self@, upper(ticker@), sto_id as int) {
                Some(s) => r == s.allowed.len(),
                None => r == 0,
            },
    {
        let t = bytes_to_upper(ticker.as_slice());
        match self.locate(&t, sto_id) {
            None => 0,
            Some((i, j)) => {
                proof {
                    let sv = self.tokens@[i as int].sales@[j as int].view();
                    assert(self.model@.contains_key(t@));
                    assert(self.model@[t@][j as int] == sv);
                    assert(sale_valid(sv));
                }
                self.tokens[i].sales[j].allowed.len() as u32
            },
        }
    }

    /// How many purchases sale `sto_id` of `ticker` has committed.
    pub fn investment_count(&self, ticker: Vec<u8>, sto_id: u32) -> (r: usize)
        requires
            self.wf(),
        ensures
            match sale_of(self@, upper(ticker@), sto_id as int) {
                Some(s) => r == s.investments.len(),
                None => r == 0,
            },
    {
        let t = bytes_to_upper(ticker.as_slice());
        match self.locate(&t, sto_id) {
            None => 0,
            Some((i, j)) => self.tokens[i].sales[j].investments.len(),
        }
    }

    /// The `k`-th committed purchase (from 0) of sale `sto_id` of `ticker`.
    pub fn investment(&self, ticker: Vec<u8>, sto_id: u32, k: usize) -> (r: Option<Investment>)
        requires
            self.wf(),
        ensures
            match sale_of(self@, upper(ticker@), sto_id as int) {
                Some(s) => if k < s.investments.len() {
                    r == Some(s.investments[k as int])
                } else {
                    r is None
                },
                None => r is None,
            },
    {
        let t = bytes_to_upper(ticker.as_slice());
        match self.locate(&t, sto_id) {
            None => None,
            Some((i, j)) => {
                if k < self.tokens[i].sales[j].investments.len() {
                    Some(self.tokens[i].sales[j].investments[k])
                } else {
                    None
                }
            },
        }
    }

    /// Launches a sale of `ticker` on behalf of `sender`, who must own it.
    /// The sale starts with nothing sold and active, and gets the next id
    /// of its ticker, which is returned.
    pub fn launch_sto(
        &mut self,
        registry: &registry::Module,
        sender: u64,
        ticker: Vec<u8>,
        beneficiary: u64,
        cap: u128,
        rate: u64,
        start_date: u64,
        end_date: u64,
    ) -> (r: Result<u32, StoError>)
        requires
            old(self).wf(),
            registry.wf(),
        ensures
            final(self).wf(),
            ({
                let t = upper(ticker@);
                let c = launch_check(old(self)@, t, owns(registry@, t, sender));
                match r {
                    Ok(id) => {
                        &&& c is Ok
                        &&& id == sales_of(old(self)@, t).len()
                        &&& final(self)@ == launched(
                            old(self)@,
                            t,
                            fresh_sale(beneficiary, cap, rate, start_date, end_date),
                        )
                    },
                    Err(e) => c == Err::<(), StoError>(e) && final(self)@ == old(self)@,
                }
            }),
    {
        let owner = Self::is_owner(registry, ticker.clone(), sender);
        let t = bytes_to_upper(ticker.as_slice());
        if !owner {
            return Err(StoError::Unauthorized);
        }
        let sto = STO { beneficiary, cap, sold: 0, rate, start_date, end_date, active: true };
        let fresh = SaleState { sto, allowed: Vec::new(), investments: Vec::new() };
        let ghost fv = fresh.view();
        assert(fv == fresh_sale(beneficiary, cap, rate, start_date, end_date)) by {
            assert(fv.allowed =~= Seq::<Seq<u8>>::empty());
        }
        let ghost m0 = self.model@;
        match self.find_token(&t) {
            Some(i) => {
                proof {
                    assert(m0.contains_key(self.tokens@[i as int].ticker@));
                }
                let n = self.tokens[i].sales.len();
                if n >= 4294967295 {
                    return Err(StoError::Overflow);
                }
                let ghost old_tokens = self.tokens@;
                self.tokens[i].sales.push(fresh);
                proof {
                    let ts = self.tokens@[i as int];
                    assert(ts.sales_view() =~= old_tokens[i as int].sales_view().push(fv));
                    assert(self.tokens@ == old_tokens.update(i as int, ts));
                    lemma_linked_update(old_tokens, m0, i as int, ts);
                    self.model@ = m0.insert(t@, ts.sales_view());
                    lemma_launch_valid(m0, t@, fv);
                }
                Ok(n as u32)
            },
            None => {
                let mut sales: Vec<SaleState> = Vec::new();
                sales.push(fresh);
                let ts = TokenSales { ticker: t, sales };
                proof {
                    assert(ts.sales_view() =~= seq![fv]);
                    assert(sales_of(m0, t@) =~= Seq::<SaleView>::empty());
                    lemma_linked_push(self.tokens@, m0, ts);
                    self.model@ = m0.insert(ts.ticker@, ts.sales_view());
                    lemma_launch_valid(m0, t@, fv);
                }
                self.tokens.push(ts);
                Ok(0)
            },
        }
    }
}

proof fn lemma_launch_valid(m: SalesModel, t: Seq<u8>, s: SaleView)
    requires
        valid_model(m),
        sale_valid(s),
        sales_of(m, t).len() < u32::MAX,
    ensures
        valid_model(launched(m, t, s)),
{
    let nm = launched(m, t, s);
    assert forall|k: Seq<u8>, id: int|
        nm.contains_key(k) && 0 <= id < nm[k].len() implies sale_valid(#[trigger] nm[k][id]) by {
        if k != t {
            assert(nm[k] == m[k]);
        } else if id < sales_of(m, t).len() {
            assert(nm[k][id] == m[k][id]);
        }
    }
}

} // verus!
