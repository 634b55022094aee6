use vstd::prelude::*;
use crate::asset::Asset;
use crate::decimal::{Dec, Decimal, Rounding};
use crate::ledger::Key;

verus! {

/// A market that can be traded.
#[derive(Debug, PartialEq, Eq, Hash)]
pub enum Symbol {
    /// The perpetual future on an underlying asset.
    Perp(Asset),
}

/// The mathematical identity of a symbol.
pub enum SymbolId {
    Perp(Seq<char>),
}

/// The five characters that end the text of a perpetual future.
pub open spec fn perp_suffix() -> Seq<char> {
    seq!['-', 'P', 'E', 'R', 'P']
}

impl SymbolId {
    /// The text a symbol is written as: the underlying, then `-PERP`.
    pub open spec fn text(self) -> Seq<char> {
        match self {
            SymbolId::Perp(underlying) => underlying + perp_suffix(),
        }
    }

    /// The symbol that `text` stands for: an underlying without a hyphen, followed by `-PERP`.
    pub open spec fn parse(text: Seq<char>) -> Option<SymbolId> {
        let cut = text.len() - 5;
        if text.len() >= 5 && text.subrange(cut, text.len() as int) == perp_suffix() && forall|
            i: int,
        |
            0 <= i < cut ==> text[i] != '-' {
            Some(SymbolId::Perp(text.subrange(0, cut)))
        } else {
            None
        }
    }
}

impl View for Symbol {
    type V = SymbolId;

    open spec fn view(&self) -> SymbolId {
        match self {
            Symbol::Perp(asset) => SymbolId::Perp(asset@),
        }
    }
}

impl Clone for Symbol {
    fn clone(&self) -> (r: Symbol)
        ensures
            r@ == self@,
    {
        match self {
            Symbol::Perp(asset) => Symbol::Perp(asset.clone()),
        }
    }
}

impl Key for Symbol {
    fn same(&self, other: &Symbol) -> (r: bool) {
        match (self, other) {
            (Symbol::Perp(a), Symbol::Perp(b)) => a.same(b),
        }
    }

    fn duplicate(&self) -> (r: Symbol) {
        self.clone()
    }
}

impl Symbol {
    /// The content of an optional symbol.
    pub open spec fn model(r: Option<Symbol>) -> Option<SymbolId> {
        match r {
            Some(s) => Some(s@),
            None => None,
        }
    }

    /// The perpetual future on `underlying`.
    pub fn perp(underlying: &str) -> (r: Symbol)
        ensures
            r@ == SymbolId::Perp(underlying@),
    {
        Symbol::Perp(Asset::new(underlying))
    }

    /// Reads a symbol from its text, such as `BTC-PERP`.
    pub fn new(text: &str) -> (r: Option<Symbol>)
        ensures
            Symbol::model(r) == SymbolId::parse(text@),
    {
        let n = text.unicode_len();
        if n < 5 {
            return None;
        }
        let cut: usize = n - 5;
        let mut i: usize = 0;
        while i < cut
            invariant
                i <= cut,
                cut + 5 == text@.len(),
                forall|j: int| 0 <= j < i ==> text@[j] != '-',
            decreases cut - i,
        {
            if text.get_char(i) == '-' {
                return None;
            }
            i = i + 1;
        }
        if text.get_char(cut) == '-' && text.get_char(cut + 1) == 'P' && text.get_char(cut + 2)
            == 'E' && text.get_char(cut + 3) == 'R' && text.get_char(cut + 4) == 'P' {
            assert(text@.subrange(cut as int, text@.len() as int) =~= perp_suffix());
            let underlying = text.substring_char(0, cut);
            Some(Symbol::Perp(Asset::new(underlying)))
        } else {
            assert(text@.subrange(cut as int, text@.len() as int)[0] == text@[cut as int]);
            assert(text@.subrange(cut as int, text@.len() as int)[1] == text@[cut + 1]);
            assert(text@.subrange(cut as int, text@.len() as int)[2] == text@[cut + 2]);
            assert(text@.subrange(cut as int, text@.len() as int)[3] == text@[cut + 3]);
            assert(text@.subrange(cut as int, text@.len() as int)[4] == text@[cut + 4]);
            None
        }
    }

    /// The asset the market is about.
    pub fn underlying(&self) -> (r: &Asset)
        ensures
            self@ == SymbolId::Perp(r@),
    {
        match self {
            Symbol::Perp(asset) => asset,
        }
    }

    /// The text of the symbol, such as `BTC-PERP`.
    pub fn to_string(&self) -> (r: String)
        ensures
            r@ == self@.text(),
    {
        proof {
            reveal_strlit("-PERP");
        }
        match self {
            Symbol::Perp(asset) => {
                let r = asset.to_string().concat("-PERP");
                assert(r@ =~= self@.text());
                r
            },
        }
    }
}

/// Reading back the text of a symbol whose underlying has no hyphen gives the symbol.
pub proof fn lemma_symbol_text_round_trip(id: SymbolId)
    requires
        id matches SymbolId::Perp(underlying) && !underlying.contains('-'),
    ensures
        SymbolId::parse(id.text()) == Some(id),
{
    let underlying = id->Perp_0;
    let text = id.text();
    let cut = text.len() - 5;
    assert(cut == underlying.len());
    assert(text.subrange(cut, text.len() as int) =~= perp_suffix());
    assert(text.subrange(0, cut) =~= underlying);
    assert forall|i: int| 0 <= i < cut implies text[i] != '-' by {
        assert(text[i] == underlying[i]);
        if text[i] == '-' {
            assert(underlying.contains('-'));
        }
    }
}

/// The trading rules of one market.
#[derive(Debug)]
pub struct MarketInfo {
    pub symbol: Symbol,
    /// Smallest order the venue accepts.
    pub min_size: Decimal,
    /// Step of order sizes; zero where sizes are not stepped.
    pub size_increment: Decimal,
    /// Step of prices; zero where prices are not stepped.
    pub price_increment: Decimal,
    pub daily_quote_volume: Decimal,
}

/// The mathematical content of a market's rules.
pub struct MarketRules {
    pub symbol: SymbolId,
    pub min_size: Dec,
    pub size_increment: Dec,
    pub price_increment: Dec,
    pub daily_quote_volume: Dec,
}

/// `x` raised to a multiple of `increment`: divided by it, rounded towards
/// positive infinity to a whole number, and multiplied by it again. A zero
/// increment leaves `x` as it is. `None` where the division or the
/// multiplication overflows.
pub open spec fn round_to_increment(x: Dec, increment: Dec) -> Option<Dec> {
    if increment.is_zero() {
        Some(x)
    } else {
        match x.div(increment) {
            Some(q) => q.round(0, Rounding::Ceiling).mul(increment),
            None => None,
        }
    }
}

fn round_up_to(x: Decimal, increment: Decimal) -> (r: Option<Decimal>)
    ensures
        Decimal::model(r) == round_to_increment(x@, increment@),
{
    if increment.is_zero() {
        Some(x)
    } else {
        match x.checked_div(increment) {
            Some(q) => q.round_dp_with_strategy(0, Rounding::Ceiling).checked_mul(increment),
            None => None,
        }
    }
}

impl View for MarketInfo {
    type V = MarketRules;

    open spec fn view(&self) -> MarketRules {
        MarketRules {
            symbol: self.symbol@,
            min_size: self.min_size@,
            size_increment: self.size_increment@,
            price_increment: self.price_increment@,
            daily_quote_volume: self.daily_quote_volume@,
        }
    }
}

impl Clone for MarketInfo {
    fn clone(&self) -> (r: MarketInfo)
        ensures
            r@ == self@,
    {
        MarketInfo {
            symbol: self.symbol.clone(),
            min_size: self.min_size,
            size_increment: self.size_increment,
            price_increment: self.price_increment,
            daily_quote_volume: self.daily_quote_volume,
        }
    }
}

impl MarketInfo {
    /// An order size raised to the market's size step.
    pub fn round_size(&self, size: Decimal) -> (r: Option<Decimal>)
        ensures
            Decimal::model(r) == round_to_increment(size@, self@.size_increment),
    {
        round_up_to(size, self.size_increment)
    }

    /// A price raised to the market's price step.
    pub fn round_price(&self, price: Decimal) -> (r: Option<Decimal>)
        ensures
            Decimal::model(r) == round_to_increment(price@, self@.price_increment),
    {
        round_up_to(price, self.price_increment)
    }
}

/// No symbol has two entries in `s`.
pub open spec fn distinct_symbols(s: Seq<MarketRules>) -> bool {
    forall|i: int, j: int| 0 <= i < j < s.len() ==> s[i].symbol != s[j].symbol
}

pub open spec fn has_market(s: Seq<MarketRules>, symbol: SymbolId) -> bool {
    exists|i: int| 0 <= i < s.len() && s[i].symbol == symbol
}

/// The rules of `symbol` in `s`, if it has any.
pub open spec fn market_of(s: Seq<MarketRules>, symbol: SymbolId) -> Option<MarketRules> {
    if has_market(s, symbol) {
        Some(s[choose|i: int| 0 <= i < s.len() && s[i].symbol == symbol])
    } else {
        None
    }
}

/// `s` with `rules` in the place of the entry of the same symbol, or at the end.
pub open spec fn with_market(s: Seq<MarketRules>, rules: MarketRules) -> Seq<MarketRules> {
    if has_market(s, rules.symbol) {
        s.update(choose|i: int| 0 <= i < s.len() && s[i].symbol == rules.symbol, rules)
    } else {
        s.push(rules)
    }
}

/// `s` after each of `infos` was entered in turn, later entries replacing earlier ones.
pub open spec fn with_markets(s: Seq<MarketRules>, infos: Seq<MarketRules>) -> Seq<MarketRules>
    decreases infos.len(),
{
    if infos.len() == 0 {
        s
    } else {
        with_market(with_markets(s, infos.drop_last()), infos.last())
    }
}

/// The markets of a venue, one entry for each symbol.
#[derive(Debug)]
pub struct Markets {
    markets: Vec<MarketInfo>,
}

impl View for Markets {
    type V = Seq<MarketRules>;

    closed spec fn view(&self) -> Seq<MarketRules> {
        Seq::new(self.markets@.len(), |i: int| self.markets@[i]@)
    }
}

impl Clone for Markets {
    fn clone(&self) -> (r: Markets)
        ensures
            r@ == self@,
    {
        proof {
            use_type_invariant(self);
        }
        let mut markets: Vec<MarketInfo> = Vec::new();
        let mut i: usize = 0;
        while i < self.markets.len()
            invariant
                i <= self.markets@.len(),
                markets@.len() == i,
                forall|j: int| 0 <= j < i ==> (#[trigger] markets@[j])@ == self.markets@[j]@,
            decreases self.markets@.len() - i,
        {
            markets.push(self.markets[i].clone());
            i = i + 1;
        }
        assert(Seq::new(markets@.len(), |i: int| markets@[i]@) =~= self@);
        Markets { markets }
    }
}

impl Markets {
    #[verifier::type_invariant]
    spec fn inv(&self) -> bool {
        distinct_symbols(self@)
    }

    pub fn new() -> (r: Markets)
        ensures
            r@ == Seq::<MarketRules>::empty(),
    {
        let markets: Vec<MarketInfo> = Vec::new();
        assert(Seq::new(markets@.len(), |i: int| markets@[i]@) =~= Seq::<MarketRules>::empty());
        Markets { markets }
    }

    /// Whether nothing was entered yet.
    pub fn is_fresh(&self) -> (r: bool)
        ensures
            r == (self@.len() == 0),
    {
        self.markets.len() == 0
    }

    pub fn len(&self) -> (r: usize)
        ensures
            r == self@.len(),
            distinct_symbols(self@),
    {
        proof {
            use_type_invariant(self);
        }
        self.markets.len()
    }

    /// All entries, in the order of entering.
    pub fn markets(&self) -> (r: &Vec<MarketInfo>)
        ensures
            Seq::new(r@.len(), |i: int| r@[i]@) == self@,
    {
        &self.markets
    }

    /// The entry at `i`, in the order of entering.
    pub fn get(&self, i: usize) -> (r: &MarketInfo)
        requires
            i < self@.len(),
        ensures
            r@ == self@[i as int],
    {
        &self.markets[i]
    }

    fn position(&self, symbol: &Symbol) -> (r: Option<usize>)
        ensures
            distinct_symbols(self@),
            r.is_some() == has_market(self@, symbol@),
            r matches Some(i) ==> i < self@.len() && market_of(self@, symbol@) == Some(
                self@[i as int],
            ) && with_market(self@, self@[i as int]) == self@.update(i as int, self@[i as int]),
            r matches Some(i) ==> i == (choose|i: int|
                0 <= i < self@.len() && self@[i].symbol == symbol@),
    {
        proof {
            use_type_invariant(self);
        }
        let mut i: usize = 0;
        while i < self.markets.len()
            invariant
                i <= self.markets@.len(),
                self@.len() == self.markets@.len(),
                distinct_symbols(self@),
                forall|j: int| 0 <= j < i ==> self@[j].symbol != symbol@,
            decreases self.markets@.len() - i,
        {
            if self.markets[i].symbol.same(symbol) {
                proof {
                    let c = choose|c: int| 0 <= c < self@.len() && self@[c].symbol == symbol@;
                    assert(self@[i as int].symbol == symbol@);
                    if c < i {
                        assert(self@[c].symbol != self@[i as int].symbol);
                    } else if i < c {
                        assert(self@[i as int].symbol != self@[c].symbol);
                    }
                }
                return Some(i);
            }
            i = i + 1;
        }
        None
    }

    /// The rules of `symbol`, if the venue lists it.
    pub fn market(&self, symbol: &Symbol) -> (r: Option<&MarketInfo>)
        ensures
            r.is_some() == has_market(self@, symbol@),
            r matches Some(info) ==> market_of(self@, symbol@) == Some(info@),
    {
        match self.position(symbol) {
            Some(i) => Some(&self.markets[i]),
            None => None,
        }
    }

    /// Enters `info`, in place of an entry of the same symbol.
    pub fn insert(&mut self, info: MarketInfo)
        ensures
            final(self)@ == with_market(old(self)@, info@),
    {
        let found = self.position(&info.symbol);
        let ghost before = self@;
        let ghost rules = info@;
        let mut markets: Vec<MarketInfo> = Vec::new();
        assert(Seq::new(markets@.len(), |i: int| markets@[i]@) =~= Seq::<MarketRules>::empty());
        std::mem::swap(&mut self.markets, &mut markets);
        match found {
            Some(i) => {
                markets.set(i, info);
            },
            None => {
                markets.push(info);
            },
        }
        let ghost t = Seq::new(markets@.len(), |i: int| markets@[i]@);
        assert(t =~= with_market(before, rules));
        assert(distinct_symbols(t)) by {
            assert forall|a: int, b: int| 0 <= a < b < t.len() implies t[a].symbol
                != t[b].symbol by {
                if found.is_some() {
                    assert(t[a].symbol == before[a].symbol);
                    assert(t[b].symbol == before[b].symbol);
                } else {
                    if b == before.len() {
                        assert(t[a] == before[a]);
                    } else {
                        assert(t[a] == before[a]);
                        assert(t[b] == before[b]);
                    }
                }
            }
        }
        std::mem::swap(&mut self.markets, &mut markets);
    }

    /// The markets made of `infos`, a later entry replacing an earlier one of the same symbol.
    pub fn from_infos(infos: Vec<MarketInfo>) -> (r: Markets)
        ensures
            r@ == with_markets(
                Seq::<MarketRules>::empty(),
                Seq::new(infos@.len(), |i: int| infos@[i]@),
            ),
    {
        let ghost all = Seq::new(infos@.len(), |i: int| infos@[i]@);
        let mut r = Markets::new();
        let mut i: usize = 0;
        assert(all.take(0) =~= Seq::<MarketRules>::empty());
        while i < infos.len()
            invariant
                i <= infos@.len(),
                all == Seq::new(infos@.len(), |i: int| infos@[i]@),
                r@ == with_markets(Seq::<MarketRules>::empty(), all.take(i as int)),
            decreases infos@.len() - i,
        {
            r.insert(infos[i].clone());
            proof {
                assert(all.take(i + 1).drop_last() =~= all.take(i as int));
                assert(all.take(i + 1).last() == infos@[i as int]@);
            }
            i = i + 1;
        }
        assert(all.take(i as int) =~= all);
        r
    }
}

} // verus!
