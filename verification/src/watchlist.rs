//! Groups of instruments: the built-in ones, and how instruments and requests
//! are routed to groups.
use vstd::prelude::*;
use crate::detector::Correlation;
use crate::sorting::{ordered, sorted_by, stable_sort, strict_weak};
use crate::text::{
    lemma_push_contains, lemma_text_order, list_has, owned, text_before, text_eq, text_lt,
};

verus! {

/// How two members of a group move against each other.
#[derive(Debug)]
pub struct PairCorrelation {
    pub symbol_a: String,
    pub symbol_b: String,
    pub correlation: Correlation,
}

/// Mathematical content of a [`PairCorrelation`].
pub struct PairCorrelationModel {
    pub symbol_a: Seq<char>,
    pub symbol_b: Seq<char>,
    pub correlation: Correlation,
}

impl View for PairCorrelation {
    type V = PairCorrelationModel;

    open spec fn view(&self) -> PairCorrelationModel {
        PairCorrelationModel {
            symbol_a: self.symbol_a@,
            symbol_b: self.symbol_b@,
            correlation: self.correlation,
        }
    }
}

impl DeepView for PairCorrelation {
    type V = PairCorrelationModel;

    open spec fn deep_view(&self) -> PairCorrelationModel {
        self@
    }
}

impl Clone for PairCorrelation {
    fn clone(&self) -> (r: Self)
        ensures
            r@ == self@,
    {
        let r = PairCorrelation {
            symbol_a: self.symbol_a.clone(),
            symbol_b: self.symbol_b.clone(),
            correlation: self.correlation,
        };
        r
    }
}

/// A group of instruments that is watched for divergences.
#[derive(Debug)]
pub struct Watchlist {
    pub id: String,
    pub name: String,
    pub symbols: Vec<String>,
    pub correlations: Vec<PairCorrelation>,
}

/// Mathematical content of a [`Watchlist`].
pub struct WatchlistModel {
    pub id: Seq<char>,
    pub name: Seq<char>,
    pub symbols: Seq<Seq<char>>,
    pub correlations: Seq<PairCorrelationModel>,
}

impl View for Watchlist {
    type V = WatchlistModel;

    open spec fn view(&self) -> WatchlistModel {
        WatchlistModel {
            id: self.id@,
            name: self.name@,
            symbols: self.symbols.deep_view(),
            correlations: self.correlations.deep_view(),
        }
    }
}

impl DeepView for Watchlist {
    type V = WatchlistModel;

    open spec fn deep_view(&self) -> WatchlistModel {
        self@
    }
}

impl Clone for Watchlist {
    fn clone(&self) -> (r: Self)
        ensures
            r@ == self@,
    {
        let r = Watchlist {
            id: self.id.clone(),
            name: self.name.clone(),
            symbols: self.symbols.clone(),
            correlations: self.correlations.clone(),
        };
        assert(r.symbols.deep_view() =~= self.symbols.deep_view());
        assert(r.correlations.deep_view() =~= self.correlations.deep_view());
        r
    }
}

/// What a user enters for a group.
#[derive(Debug)]
pub struct WatchlistInput {
    pub name: String,
    pub symbols: Vec<String>,
    pub correlations: Vec<PairCorrelation>,
}

/// Mathematical content of a [`WatchlistInput`].
pub struct WatchlistInputModel {
    pub name: Seq<char>,
    pub symbols: Seq<Seq<char>>,
    pub correlations: Seq<PairCorrelationModel>,
}

impl View for WatchlistInput {
    type V = WatchlistInputModel;

    open spec fn view(&self) -> WatchlistInputModel {
        WatchlistInputModel {
            name: self.name@,
            symbols: self.symbols.deep_view(),
            correlations: self.correlations.deep_view(),
        }
    }
}

impl DeepView for WatchlistInput {
    type V = WatchlistInputModel;

    open spec fn deep_view(&self) -> WatchlistInputModel {
        self@
    }
}

impl Clone for WatchlistInput {
    fn clone(&self) -> (r: Self)
        ensures
            r@ == self@,
    {
        let r = WatchlistInput {
            name: self.name.clone(),
            symbols: self.symbols.clone(),
            correlations: self.correlations.clone(),
        };
        assert(r.symbols.deep_view() =~= self.symbols.deep_view());
        assert(r.correlations.deep_view() =~= self.correlations.deep_view());
        r
    }
}

/// A group of two currency pairs and the dollar index.
pub open spec fn dollar_group(
    id: Seq<char>,
    name: Seq<char>,
    first: Seq<char>,
    second: Seq<char>,
    correlation: Correlation,
) -> WatchlistModel {
    WatchlistModel {
        id,
        name,
        symbols: seq![first, second, "TVC:DXY"@],
        correlations: seq![
            PairCorrelationModel { symbol_a: "TVC:DXY"@, symbol_b: first, correlation },
            PairCorrelationModel { symbol_a: "TVC:DXY"@, symbol_b: second, correlation },
        ],
    }
}

/// The built-in groups. Pairs quoted in dollars move against the index, pairs
/// quoted from the dollar move with it.
pub open spec fn default_groups() -> Seq<WatchlistModel> {
    seq![
        dollar_group(
            "eu-gu-dxy"@,
            "EU / GU / DXY"@,
            "OANDA:EURUSD"@,
            "OANDA:GBPUSD"@,
            Correlation::Negative,
        ),
        dollar_group(
            "aud-nzd-dxy"@,
            "AUD / NZD / DXY"@,
            "OANDA:AUDUSD"@,
            "OANDA:NZDUSD"@,
            Correlation::Negative,
        ),
        dollar_group(
            "chf-cad-dxy"@,
            "CHF / CAD / DXY"@,
            "OANDA:USDCHF"@,
            "OANDA:USDCAD"@,
            Correlation::Positive,
        ),
    ]
}

fn make_dollar_group(
    id: &str,
    name: &str,
    first: &str,
    second: &str,
    correlation: Correlation,
) -> (r: Watchlist)
    ensures
        r@ == dollar_group(id@, name@, first@, second@, correlation),
{
    let mut symbols: Vec<String> = Vec::new();
    symbols.push(owned(first));
    symbols.push(owned(second));
    symbols.push(owned("TVC:DXY"));
    assert(symbols.deep_view() =~= seq![first@, second@, "TVC:DXY"@]);
    let mut correlations: Vec<PairCorrelation> = Vec::new();
    correlations.push(
        PairCorrelation { symbol_a: owned("TVC:DXY"), symbol_b: owned(first), correlation },
    );
    correlations.push(
        PairCorrelation { symbol_a: owned("TVC:DXY"), symbol_b: owned(second), correlation },
    );
    let r = Watchlist { id: owned(id), name: owned(name), symbols, correlations };
    assert(r@.correlations =~= dollar_group(id@, name@, first@, second@, correlation).correlations);
    r
}

/// The built-in groups.
pub fn default_watchlists() -> (r: Vec<Watchlist>)
    ensures
        r.deep_view() == default_groups(),
{
    let mut out: Vec<Watchlist> = Vec::new();
    out.push(
        make_dollar_group(
            "eu-gu-dxy",
            "EU / GU / DXY",
            "OANDA:EURUSD",
            "OANDA:GBPUSD",
            Correlation::Negative,
        ),
    );
    out.push(
        make_dollar_group(
            "aud-nzd-dxy",
            "AUD / NZD / DXY",
            "OANDA:AUDUSD",
            "OANDA:NZDUSD",
            Correlation::Negative,
        ),
    );
    out.push(
        make_dollar_group(
            "chf-cad-dxy",
            "CHF / CAD / DXY",
            "OANDA:USDCHF",
            "OANDA:USDCAD",
            Correlation::Positive,
        ),
    );
    assert(out.deep_view() =~= default_groups());
    out
}

/// The first group with an identity.
pub open spec fn first_group(groups: Seq<WatchlistModel>, id: Seq<char>) -> Option<WatchlistModel>
    decreases groups.len(),
{
    if groups.len() == 0 {
        None
    } else if groups[0].id == id {
        Some(groups[0])
    } else {
        first_group(groups.drop_first(), id)
    }
}

proof fn lemma_first_group(groups: Seq<WatchlistModel>, id: Seq<char>, n: int)
    requires
        0 <= n <= groups.len(),
        forall|k: int| 0 <= k < n ==> (#[trigger] groups[k]).id != id,
        n < groups.len() ==> groups[n].id == id,
    ensures
        first_group(groups, id) == if n < groups.len() {
            Some(groups[n])
        } else {
            None
        },
    decreases groups.len(),
{
    if n > 0 {
        assert(groups[0].id != id);
        let tail = groups.drop_first();
        assert forall|k: int| 0 <= k < n - 1 implies (#[trigger] tail[k]).id != id by {
            assert(tail[k] == groups[k + 1]);
        }
        lemma_first_group(tail, id, n - 1);
    }
}

/// Position of the first group with an identity, or the number of groups.
pub fn position_of(groups: &Vec<Watchlist>, id: &str) -> (r: usize)
    ensures
        r <= groups.len(),
        forall|k: int| 0 <= k < r ==> (#[trigger] groups.deep_view()[k]).id != id@,
        r < groups.len() ==> groups.deep_view()[r as int].id == id@,
        first_group(groups.deep_view(), id@) == if r < groups.len() {
            Some(groups.deep_view()[r as int])
        } else {
            None
        },
{
    let mut i: usize = 0;
    while i < groups.len() && !text_eq(groups[i].id.as_str(), id)
        invariant
            i <= groups.len(),
            forall|k: int| 0 <= k < i ==> (#[trigger] groups.deep_view()[k]).id != id@,
        decreases groups.len() - i,
    {
        i += 1;
    }
    proof {
        lemma_first_group(groups.deep_view(), id@, i as int);
    }
    i
}

/// The first group with an identity.
pub fn find_watchlist(groups: &Vec<Watchlist>, id: &str) -> (r: Option<Watchlist>)
    ensures
        r.deep_view() == first_group(groups.deep_view(), id@),
{
    let i: usize = position_of(groups, id);
    if i < groups.len() {
        Some(groups[i].clone())
    } else {
        None
    }
}

/// The groups followed by every built-in group of a prefix that is missing.
pub open spec fn completed(groups: Seq<WatchlistModel>, defaults: Seq<WatchlistModel>) -> Seq<
    WatchlistModel,
>
    decreases defaults.len(),
{
    if defaults.len() == 0 {
        groups
    } else {
        let rest = completed(groups, defaults.drop_last());
        if first_group(groups, defaults.last().id) is Some {
            rest
        } else {
            rest.push(defaults.last())
        }
    }
}

/// Adds the built-in groups that are missing, behind the given ones.
pub fn merge_defaults(existing: &Vec<Watchlist>) -> (r: Vec<Watchlist>)
    ensures
        r.deep_view() == completed(existing.deep_view(), default_groups()),
{
    let defaults = default_watchlists();
    let mut out = existing.clone();
    let mut i: usize = 0;
    assert(out.deep_view() =~= existing.deep_view());
    while i < defaults.len()
        invariant
            i <= defaults.len(),
            out.deep_view() == completed(existing.deep_view(), defaults.deep_view().take(i as int)),
        decreases defaults.len() - i,
    {
        let ghost before = out.deep_view();
        proof {
            let now = defaults.deep_view().take(i + 1);
            assert(now.drop_last() =~= defaults.deep_view().take(i as int));
            assert(now.last() == defaults@[i as int]@);
        }
        if position_of(existing, defaults[i].id.as_str()) == existing.len() {
            out.push(defaults[i].clone());
            assert(out.deep_view() =~= before.push(defaults@[i as int]@));
        }
        i += 1;
    }
    assert(defaults.deep_view().take(i as int) =~= defaults.deep_view());
    out
}

/// The list with a text added at its end unless it is there already.
pub open spec fn with_text(list: Seq<Seq<char>>, s: Seq<char>) -> Seq<Seq<char>> {
    if list.contains(s) {
        list
    } else {
        list.push(s)
    }
}

/// The list with several texts added.
pub open spec fn with_texts(list: Seq<Seq<char>>, more: Seq<Seq<char>>) -> Seq<Seq<char>>
    decreases more.len(),
{
    if more.len() == 0 {
        list
    } else {
        with_text(with_texts(list, more.drop_last()), more.last())
    }
}

/// Adds a text at the end of a list unless it is there already.
pub fn add_text(list: &mut Vec<String>, s: &str)
    ensures
        final(list).deep_view() == with_text(old(list).deep_view(), s@),
{
    if !list_has(list, s) {
        let ghost before = list.deep_view();
        list.push(owned(s));
        assert(list.deep_view() =~= before.push(s@));
    }
}

/// Adds several texts.
pub fn add_texts(list: &mut Vec<String>, more: &Vec<String>)
    ensures
        final(list).deep_view() == with_texts(old(list).deep_view(), more.deep_view()),
{
    let mut i: usize = 0;
    while i < more.len()
        invariant
            i <= more.len(),
            list.deep_view() == with_texts(old(list).deep_view(), more.deep_view().take(i as int)),
        decreases more.len() - i,
    {
        proof {
            let now = more.deep_view().take(i + 1);
            assert(now.drop_last() =~= more.deep_view().take(i as int));
            assert(now.last() == more@[i as int]@);
        }
        add_text(list, more[i].as_str());
        i += 1;
    }
    assert(more.deep_view().take(i as int) =~= more.deep_view());
}

/// Every instrument of the groups, each once, in order of first mention.
pub open spec fn union_of(groups: Seq<WatchlistModel>) -> Seq<Seq<char>>
    decreases groups.len(),
{
    if groups.len() == 0 {
        Seq::empty()
    } else {
        with_texts(union_of(groups.drop_last()), groups.last().symbols)
    }
}

/// Every instrument of the groups, each once, in order of first mention.
pub fn monitored_symbol_union(groups: &Vec<Watchlist>) -> (r: Vec<String>)
    ensures
        r.deep_view() == union_of(groups.deep_view()),
{
    let mut out: Vec<String> = Vec::new();
    let mut i: usize = 0;
    assert(out.deep_view() =~= Seq::<Seq<char>>::empty());
    while i < groups.len()
        invariant
            i <= groups.len(),
            out.deep_view() == union_of(groups.deep_view().take(i as int)),
        decreases groups.len() - i,
    {
        proof {
            let now = groups.deep_view().take(i + 1);
            assert(now.drop_last() =~= groups.deep_view().take(i as int));
            assert(now.last() == groups@[i as int]@);
        }
        add_texts(&mut out, &groups[i].symbols);
        i += 1;
    }
    assert(groups.deep_view().take(i as int) =~= groups.deep_view());
    out
}

/// What is subscribed: the instruments of the groups and those saved for
/// viewing.
pub fn subscribed_symbols(groups: &Vec<Watchlist>, chart_symbols: &Vec<String>) -> (r: Vec<String>)
    ensures
        r.deep_view() == with_texts(union_of(groups.deep_view()), chart_symbols.deep_view()),
{
    let mut out = monitored_symbol_union(groups);
    add_texts(&mut out, chart_symbols);
    out
}

/// What the symbol picker offers: everything subscribed, and Bitcoin.
pub fn picker_symbols(groups: &Vec<Watchlist>, chart_symbols: &Vec<String>) -> (r: Vec<String>)
    ensures
        r.deep_view() == with_text(
            with_texts(union_of(groups.deep_view()), chart_symbols.deep_view()),
            "COINBASE:BTCUSD"@,
        ),
{
    let mut out = subscribed_symbols(groups, chart_symbols);
    add_text(&mut out, "COINBASE:BTCUSD");
    out
}

/// Groups are listed by identity.
pub open spec fn group_order() -> spec_fn(WatchlistModel, WatchlistModel) -> bool {
    |a: WatchlistModel, b: WatchlistModel| text_before(a.id, b.id)
}

/// The order of groups is a proper order.
pub proof fn lemma_group_order()
    ensures
        strict_weak(group_order()),
{
    let before = group_order();
    assert forall|a: WatchlistModel, b: WatchlistModel| #[trigger] before(a, b) implies !before(
        b,
        a,
    ) by {
        lemma_text_order(a.id, b.id, a.id);
    }
    assert forall|a: WatchlistModel, b: WatchlistModel, c: WatchlistModel|
        !(#[trigger] before(b, a)) && !(#[trigger] before(c, b)) implies !before(c, a) by {
        lemma_text_order(a.id, b.id, c.id);
        lemma_text_order(b.id, c.id, a.id);
        lemma_text_order(c.id, a.id, b.id);
        lemma_text_order(a.id, c.id, b.id);
        lemma_text_order(c.id, b.id, a.id);
        lemma_text_order(b.id, a.id, c.id);
    }
}

/// Sorts groups by identity.
pub fn sort_groups(groups: Vec<Watchlist>) -> (r: Vec<Watchlist>)
    ensures
        r.deep_view() == sorted_by(groups.deep_view(), group_order()),
{
    let comes_before = |a: &Watchlist, b: &Watchlist| -> (r: bool)
        ensures
            r == text_before(a@.id, b@.id),
        { text_lt(a.id.as_str(), b.id.as_str()) };
    stable_sort(groups, comes_before, Ghost(group_order()))
}

/// The groups that hold an instrument.
pub open spec fn groups_with(groups: Seq<WatchlistModel>, symbol: Seq<char>) -> Seq<WatchlistModel>
    decreases groups.len(),
{
    if groups.len() == 0 {
        Seq::empty()
    } else if groups.last().symbols.contains(symbol) {
        groups_with(groups.drop_last(), symbol).push(groups.last())
    } else {
        groups_with(groups.drop_last(), symbol)
    }
}

/// The groups that an instrument's events go to, by identity, so that groups
/// that react to the same event always do so in the same order.
pub fn groups_for_symbol(groups: &Vec<Watchlist>, symbol: &str) -> (r: Vec<Watchlist>)
    ensures
        r.deep_view() == sorted_by(groups_with(groups.deep_view(), symbol@), group_order()),
{
    let mut out: Vec<Watchlist> = Vec::new();
    let mut i: usize = 0;
    assert(out.deep_view() =~= Seq::<WatchlistModel>::empty());
    while i < groups.len()
        invariant
            i <= groups.len(),
            out.deep_view() == groups_with(groups.deep_view().take(i as int), symbol@),
        decreases groups.len() - i,
    {
        let ghost before = out.deep_view();
        proof {
            let now = groups.deep_view().take(i + 1);
            assert(now.drop_last() =~= groups.deep_view().take(i as int));
            assert(now.last() == groups@[i as int]@);
        }
        if list_has(&groups[i].symbols, symbol) {
            out.push(groups[i].clone());
            assert(out.deep_view() =~= before.push(groups@[i as int]@));
        }
        i += 1;
    }
    assert(groups.deep_view().take(i as int) =~= groups.deep_view());
    sort_groups(out)
}

fn not_found(id: &str) -> (r: String)
    ensures
        r@ == "watchlist "@ + id@ + " not found"@,
{
    let mut out = owned("watchlist ");
    out.append(id);
    out.append(" not found");
    out
}

/// The groups that a request is about: the named one, or all by identity.
pub fn selected_groups(groups: &Vec<Watchlist>, id: Option<&str>) -> (r: Result<
    Vec<Watchlist>,
    String,
>)
    ensures
        match (id, r) {
            (None, Ok(list)) => list.deep_view() == sorted_by(groups.deep_view(), group_order()),
            (None, Err(_)) => false,
            (Some(id), Ok(list)) => first_group(groups.deep_view(), id@) is Some
                && list.deep_view() == seq![first_group(groups.deep_view(), id@)->0],
            (Some(id), Err(e)) => first_group(groups.deep_view(), id@) is None && e@
                == "watchlist "@ + id@ + " not found"@,
        },
{
    match id {
        Some(id) => match find_watchlist(groups, id) {
            Some(group) => {
                let mut out: Vec<Watchlist> = Vec::new();
                let ghost m = group@;
                out.push(group);
                assert(out.deep_view() =~= seq![m]);
                Ok(out)
            },
            None => Err(not_found(id)),
        },
        None => {
            let all = groups.clone();
            assert(all.deep_view() =~= groups.deep_view());
            Ok(sort_groups(all))
        },
    }
}

/// The group that is shown when the program starts: the last selected one, or
/// the first, or the first built-in one.
pub open spec fn startup_group(groups: Seq<WatchlistModel>, active: Option<Seq<char>>) -> WatchlistModel {
    let chosen = match active {
        Some(id) => first_group(groups, id),
        None => None,
    };
    match chosen {
        Some(g) => g,
        None => if groups.len() > 0 {
            groups[0]
        } else {
            default_groups()[0]
        },
    }
}

/// The group that is shown when the program starts.
pub fn startup_watchlist(groups: &Vec<Watchlist>, active: &Option<String>) -> (r: Watchlist)
    ensures
        r@ == startup_group(groups.deep_view(), active.deep_view()),
{
    match active {
        Some(id) => match find_watchlist(groups, id.as_str()) {
            Some(group) => return group,
            None => {},
        },
        None => {},
    }
    if groups.len() > 0 {
        groups[0].clone()
    } else {
        let defaults = default_watchlists();
        assert(defaults.deep_view().len() == 3);
        defaults[0].clone()
    }
}

/// Hexadecimal digits of a natural number, most significant first.
pub open spec fn hex_digits(n: nat) -> Seq<char>
    decreases n,
{
    if n < 16 {
        seq![hex_digit(n)]
    } else {
        hex_digits(n / 16).push(hex_digit(n % 16))
    }
}

/// A digit of a hexadecimal number.
pub open spec fn hex_digit(n: nat) -> char {
    if n < 10 {
        (('0' as u32) + n) as char
    } else {
        (('a' as u32) + n - 10) as char
    }
}

fn make_hex_digit(n: u64) -> (r: char)
    requires
        n < 16,
    ensures
        r == hex_digit(n as nat),
{
    if n == 0 { '0' }
    else if n == 1 { '1' }
    else if n == 2 { '2' }
    else if n == 3 { '3' }
    else if n == 4 { '4' }
    else if n == 5 { '5' }
    else if n == 6 { '6' }
    else if n == 7 { '7' }
    else if n == 8 { '8' }
    else if n == 9 { '9' }
    else if n == 10 { 'a' }
    else if n == 11 { 'b' }
    else if n == 12 { 'c' }
    else if n == 13 { 'd' }
    else if n == 14 { 'e' }
    else { 'f' }
}

fn push_hex(out: &mut String, n: u64)
    ensures
        final(out)@ == old(out)@ + hex_digits(n as nat),
    decreases n,
{
    if n >= 16 {
        push_hex(out, n / 16);
        out.push(make_hex_digit(n % 16));
    } else {
        out.push(make_hex_digit(n));
    }
    assert(out@ =~= old(out)@ + hex_digits(n as nat));
}

/// Identity of a group that is created at a time in milliseconds.
pub fn new_id(now: u64) -> (r: String)
    ensures
        r@ == "wl-"@ + hex_digits(now as nat),
{
    let mut out = owned("wl-");
    push_hex(&mut out, now);
    out
}

/// The latest of the groups with an identity.
pub open spec fn last_group(groups: Seq<WatchlistModel>, id: Seq<char>) -> Option<WatchlistModel>
    decreases groups.len(),
{
    if groups.len() == 0 {
        None
    } else if groups.last().id == id {
        Some(groups.last())
    } else {
        last_group(groups.drop_last(), id)
    }
}

/// The wanted groups of a prefix whose engines have to be built anew: those
/// that do not run, or run with other settings.
pub open spec fn rebuilt(running: Seq<WatchlistModel>, wanted: Seq<WatchlistModel>) -> Seq<
    WatchlistModel,
>
    decreases wanted.len(),
{
    if wanted.len() == 0 {
        Seq::empty()
    } else {
        let rest = rebuilt(running, wanted.drop_last());
        if last_group(running + rest, wanted.last().id) == Some(wanted.last()) {
            rest
        } else {
            rest.push(wanted.last())
        }
    }
}

/// The running groups that are no longer wanted.
pub open spec fn retired(running: Seq<WatchlistModel>, wanted: Seq<WatchlistModel>) -> Seq<Seq<char>>
    decreases running.len(),
{
    if running.len() == 0 {
        Seq::empty()
    } else if first_group(wanted, running.last().id) is Some {
        retired(running.drop_last(), wanted)
    } else {
        retired(running.drop_last(), wanted).push(running.last().id)
    }
}

/// What to do when the configured groups change.
pub struct ReconcilePlan {
    /// Groups whose engines are dropped.
    pub retired: Vec<String>,
    /// Groups whose engines are built anew and replayed, by identity.
    pub rebuilt: Vec<Watchlist>,
    /// Instruments that the groups need.
    pub symbols: Vec<String>,
    /// Instruments to subscribe to.
    pub subscribed: Vec<String>,
}

fn same_texts(a: &Vec<String>, b: &Vec<String>) -> (r: bool)
    ensures
        r == (a.deep_view() == b.deep_view()),
{
    if a.len() != b.len() {
        assert(a.deep_view().len() != b.deep_view().len());
        return false;
    }
    let mut i: usize = 0;
    while i < a.len()
        invariant
            i <= a.len(),
            a.len() == b.len(),
            forall|k: int| 0 <= k < i ==> #[trigger] a.deep_view()[k] == b.deep_view()[k],
        decreases a.len() - i,
    {
        if !text_eq(a[i].as_str(), b[i].as_str()) {
            assert(a.deep_view()[i as int] != b.deep_view()[i as int]);
            return false;
        }
        i += 1;
    }
    assert(a.deep_view() =~= b.deep_view());
    true
}

fn same_correlations(a: &Vec<PairCorrelation>, b: &Vec<PairCorrelation>) -> (r: bool)
    ensures
        r == (a.deep_view() == b.deep_view()),
{
    if a.len() != b.len() {
        assert(a.deep_view().len() != b.deep_view().len());
        return false;
    }
    let mut i: usize = 0;
    while i < a.len()
        invariant
            i <= a.len(),
            a.len() == b.len(),
            forall|k: int| 0 <= k < i ==> #[trigger] a.deep_view()[k] == b.deep_view()[k],
        decreases a.len() - i,
    {
        if a[i].correlation != b[i].correlation || !text_eq(
            a[i].symbol_a.as_str(),
            b[i].symbol_a.as_str(),
        ) || !text_eq(a[i].symbol_b.as_str(), b[i].symbol_b.as_str()) {
            assert(a.deep_view()[i as int] != b.deep_view()[i as int]);
            return false;
        }
        i += 1;
    }
    assert(a.deep_view() =~= b.deep_view());
    true
}

/// Whether two groups are the same in every respect.
pub fn same_watchlist(a: &Watchlist, b: &Watchlist) -> (r: bool)
    ensures
        r == (a@ == b@),
{
    text_eq(a.id.as_str(), b.id.as_str()) && text_eq(a.name.as_str(), b.name.as_str())
        && same_texts(&a.symbols, &b.symbols) && same_correlations(&a.correlations, &b.correlations)
}

proof fn lemma_last_group(groups: Seq<WatchlistModel>, id: Seq<char>, n: int)
    requires
        -1 <= n < groups.len(),
        forall|k: int| n < k < groups.len() ==> (#[trigger] groups[k]).id != id,
        n >= 0 ==> groups[n].id == id,
    ensures
        last_group(groups, id) == if n >= 0 {
            Some(groups[n])
        } else {
            None
        },
    decreases groups.len(),
{
    if groups.len() > 0 && n < groups.len() - 1 {
        assert(groups[groups.len() - 1].id != id);
        assert forall|k: int| n < k < groups.drop_last().len() implies (
        #[trigger] groups.drop_last()[k]).id != id by {
            assert(groups[k].id != id);
        }
        lemma_last_group(groups.drop_last(), id, n);
    }
}

fn runs_unchanged(state: &Vec<Watchlist>, wanted: &Watchlist) -> (r: bool)
    ensures
        r == (last_group(state.deep_view(), wanted@.id) == Some(wanted@)),
{
    let mut i: usize = state.len();
    while i > 0
        invariant
            i <= state.len(),
            forall|k: int| i <= k < state.len() ==> (#[trigger] state.deep_view()[k]).id
                != wanted@.id,
        decreases i,
    {
        if text_eq(state[i - 1].id.as_str(), wanted.id.as_str()) {
            proof {
                lemma_last_group(state.deep_view(), wanted@.id, i - 1);
            }
            return same_watchlist(&state[i - 1], wanted);
        }
        i -= 1;
    }
    proof {
        lemma_last_group(state.deep_view(), wanted@.id, -1);
    }
    false
}

/// Plans how running groups become the wanted ones. A group that runs
/// unchanged is left alone.
pub fn plan_reconcile(
    running: &Vec<Watchlist>,
    wanted: &Vec<Watchlist>,
    chart_symbols: &Vec<String>,
) -> (r: ReconcilePlan)
    ensures
        r.retired.deep_view() == retired(running.deep_view(), wanted.deep_view()),
        r.rebuilt.deep_view() == sorted_by(
            rebuilt(running.deep_view(), wanted.deep_view()),
            group_order(),
        ),
        r.symbols.deep_view() == union_of(wanted.deep_view()),
        r.subscribed.deep_view() == with_texts(
            union_of(wanted.deep_view()),
            chart_symbols.deep_view(),
        ),
{
    let mut gone: Vec<String> = Vec::new();
    let mut i: usize = 0;
    assert(gone.deep_view() =~= Seq::<Seq<char>>::empty());
    while i < running.len()
        invariant
            i <= running.len(),
            gone.deep_view() == retired(running.deep_view().take(i as int), wanted.deep_view()),
        decreases running.len() - i,
    {
        let ghost before = gone.deep_view();
        proof {
            let now = running.deep_view().take(i + 1);
            assert(now.drop_last() =~= running.deep_view().take(i as int));
            assert(now.last() == running@[i as int]@);
        }
        if position_of(wanted, running[i].id.as_str()) == wanted.len() {
            gone.push(running[i].id.clone());
            assert(gone.deep_view() =~= before.push(running@[i as int]@.id));
        }
        i += 1;
    }
    assert(running.deep_view().take(i as int) =~= running.deep_view());
    let mut state = running.clone();
    let mut fresh: Vec<Watchlist> = Vec::new();
    let mut j: usize = 0;
    assert(fresh.deep_view() =~= Seq::<WatchlistModel>::empty());
    assert(state.deep_view() =~= running.deep_view() + fresh.deep_view());
    while j < wanted.len()
        invariant
            j <= wanted.len(),
            fresh.deep_view() == rebuilt(running.deep_view(), wanted.deep_view().take(j as int)),
            state.deep_view() == running.deep_view() + fresh.deep_view(),
        decreases wanted.len() - j,
    {
        let ghost before = fresh.deep_view();
        let ghost held = state.deep_view();
        proof {
            let now = wanted.deep_view().take(j + 1);
            assert(now.drop_last() =~= wanted.deep_view().take(j as int));
            assert(now.last() == wanted@[j as int]@);
        }
        if !runs_unchanged(&state, &wanted[j]) {
            fresh.push(wanted[j].clone());
            state.push(wanted[j].clone());
            assert(fresh.deep_view() =~= before.push(wanted@[j as int]@));
            assert(state.deep_view() =~= held.push(wanted@[j as int]@));
            assert(state.deep_view() =~= running.deep_view() + fresh.deep_view());
        }
        j += 1;
    }
    assert(wanted.deep_view().take(j as int) =~= wanted.deep_view());
    ReconcilePlan {
        retired: gone,
        rebuilt: sort_groups(fresh),
        symbols: monitored_symbol_union(wanted),
        subscribed: subscribed_symbols(wanted, chart_symbols),
    }
}

proof fn lemma_with_texts_holds(list: Seq<Seq<char>>, more: Seq<Seq<char>>, s: Seq<char>)
    ensures
        with_texts(list, more).contains(s) == (list.contains(s) || more.contains(s)),
        list.no_duplicates() ==> with_texts(list, more).no_duplicates(),
    decreases more.len(),
{
    if more.len() > 0 {
        let rest = with_texts(list, more.drop_last());
        lemma_with_texts_holds(list, more.drop_last(), s);
        assert(more =~= more.drop_last().push(more.last()));
        lemma_push_contains(more.drop_last(), more.last(), s);
        lemma_push_contains(rest, more.last(), s);
        if list.no_duplicates() && !rest.contains(more.last()) {
            let all = rest.push(more.last());
            assert forall|i: int, j: int| 0 <= i < all.len() && 0 <= j < all.len() && i
                != j implies all[i] != all[j] by {
                if i == rest.len() {
                    assert(rest[j] == all[j]);
                } else if j == rest.len() {
                    assert(rest[i] == all[i]);
                }
            }
        }
    }
}

/// The union of the groups holds an instrument exactly where one of the groups
/// does, and holds none twice: an instrument that several groups share is
/// subscribed once.
pub proof fn law_union_holds_each_symbol_once(groups: Seq<WatchlistModel>, s: Seq<char>)
    ensures
        union_of(groups).no_duplicates(),
        union_of(groups).contains(s) == exists|k: int|
            0 <= k < groups.len() && (#[trigger] groups[k]).symbols.contains(s),
    decreases groups.len(),
{
    if groups.len() > 0 {
        law_union_holds_each_symbol_once(groups.drop_last(), s);
        lemma_with_texts_holds(union_of(groups.drop_last()), groups.last().symbols, s);
        let rest = groups.drop_last();
        if groups.last().symbols.contains(s) {
            assert(groups[groups.len() - 1].symbols.contains(s));
        }
        if exists|k: int| 0 <= k < rest.len() && (#[trigger] rest[k]).symbols.contains(s) {
            let k = choose|k: int| 0 <= k < rest.len() && (#[trigger] rest[k]).symbols.contains(s);
            assert(groups[k].symbols.contains(s));
        }
        if exists|k: int| 0 <= k < groups.len() && (#[trigger] groups[k]).symbols.contains(s) {
            let k = choose|k: int|
                0 <= k < groups.len() && (#[trigger] groups[k]).symbols.contains(s);
            if k < rest.len() {
                assert(rest[k].symbols.contains(s));
            }
        }
    }
}

proof fn lemma_groups_with_members(groups: Seq<WatchlistModel>, symbol: Seq<char>, g: WatchlistModel)
    ensures
        groups_with(groups, symbol).contains(g) == (groups.contains(g) && g.symbols.contains(
            symbol,
        )),
    decreases groups.len(),
{
    if groups.len() > 0 {
        lemma_groups_with_members(groups.drop_last(), symbol, g);
        assert(groups =~= groups.drop_last().push(groups.last()));
        lemma_push_contains(groups.drop_last(), groups.last(), g);
        lemma_push_contains(groups_with(groups.drop_last(), symbol), groups.last(), g);
    }
}

/// An event reaches exactly the groups that hold its instrument, in the order
/// of their identities.
pub proof fn law_events_reach_exactly_their_groups(
    groups: Seq<WatchlistModel>,
    symbol: Seq<char>,
    g: WatchlistModel,
)
    ensures
        ({
            let routed = sorted_by(groups_with(groups, symbol), group_order());
            &&& routed.contains(g) == (groups.contains(g) && g.symbols.contains(symbol))
            &&& ordered(routed, group_order())
        }),
{
    let chosen = groups_with(groups, symbol);
    let routed = sorted_by(chosen, group_order());
    lemma_group_order();
    crate::sorting::law_sorting(chosen, group_order());
    lemma_groups_with_members(groups, symbol, g);
    broadcast use vstd::seq_lib::group_to_multiset_ensures;

    assert(routed.to_multiset().contains(g) == routed.contains(g));
    assert(chosen.to_multiset().contains(g) == chosen.contains(g));
}

proof fn lemma_nothing_rebuilt(running: Seq<WatchlistModel>, wanted: Seq<WatchlistModel>)
    requires
        forall|k: int|
            0 <= k < wanted.len() ==> last_group(running, (#[trigger] wanted[k]).id) == Some(
                wanted[k],
            ),
    ensures
        rebuilt(running, wanted) == Seq::<WatchlistModel>::empty(),
    decreases wanted.len(),
{
    if wanted.len() > 0 {
        assert forall|k: int| 0 <= k < wanted.drop_last().len() implies last_group(
            running,
            (#[trigger] wanted.drop_last()[k]).id,
        ) == Some(wanted.drop_last()[k]) by {
            assert(wanted[k] == wanted.drop_last()[k]);
        }
        lemma_nothing_rebuilt(running, wanted.drop_last());
        assert(running + Seq::<WatchlistModel>::empty() =~= running);
        assert(wanted[wanted.len() - 1] == wanted.last());
    }
}

/// Groups that already run as wanted are left alone.
pub proof fn law_running_groups_are_left_alone(groups: Seq<WatchlistModel>)
    requires
        forall|i: int, j: int|
            0 <= i < groups.len() && 0 <= j < groups.len() && i != j ==> (#[trigger] groups[i]).id
                != (#[trigger] groups[j]).id,
    ensures
        rebuilt(groups, groups) == Seq::<WatchlistModel>::empty(),
        retired(groups, groups) == Seq::<Seq<char>>::empty(),
{
    assert forall|k: int| 0 <= k < groups.len() implies last_group(
        groups,
        (#[trigger] groups[k]).id,
    ) == Some(groups[k]) by {
        lemma_last_group(groups, groups[k].id, k);
    }
    lemma_nothing_rebuilt(groups, groups);
    assert forall|k: int| 0 <= k < groups.len() implies first_group(
        groups,
        (#[trigger] groups[k]).id,
    ) is Some by {
        lemma_first_group(groups, groups[k].id, k);
    }
    lemma_nothing_retired(groups, groups);
}

proof fn lemma_nothing_retired(running: Seq<WatchlistModel>, wanted: Seq<WatchlistModel>)
    requires
        forall|k: int|
            0 <= k < running.len() ==> first_group(wanted, (#[trigger] running[k]).id) is Some,
    ensures
        retired(running, wanted) == Seq::<Seq<char>>::empty(),
    decreases running.len(),
{
    if running.len() > 0 {
        assert forall|k: int| 0 <= k < running.drop_last().len() implies first_group(
            wanted,
            (#[trigger] running.drop_last()[k]).id,
        ) is Some by {
            assert(running[k] == running.drop_last()[k]);
        }
        lemma_nothing_retired(running.drop_last(), wanted);
        assert(running[running.len() - 1] == running.last());
    }
}

} // verus!
