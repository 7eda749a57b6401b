//! Candles, candle events and the timeframes they live on.
use vstd::prelude::*;

verus! {

/// Fixed-point units per whole price (or volume) unit.
pub const PRICE_SCALE: i64 = 1_000_000_000;

/// Candle period.
#[derive(Clone, Copy, Debug, PartialEq, Eq, Hash, Structural)]
pub enum Timeframe {
    M1,
    M5,
    M15,
    M30,
    H1,
    H4,
    D1,
    W1,
    MN1,
}

/// Nominal length of a period in milliseconds. Calendar periods can be
/// shorter or longer than this on the clock.
pub open spec fn duration(tf: Timeframe) -> int {
    match tf {
        Timeframe::M1 => 60_000,
        Timeframe::M5 => 300_000,
        Timeframe::M15 => 900_000,
        Timeframe::M30 => 1_800_000,
        Timeframe::H1 => 3_600_000,
        Timeframe::H4 => 14_400_000,
        Timeframe::D1 => 86_400_000,
        Timeframe::W1 => 604_800_000,
        Timeframe::MN1 => 2_592_000_000,
    }
}

/// Short text of a timeframe.
pub open spec fn tag_text(tf: Timeframe) -> Seq<char> {
    match tf {
        Timeframe::M1 => "1m"@,
        Timeframe::M5 => "5m"@,
        Timeframe::M15 => "15m"@,
        Timeframe::M30 => "30m"@,
        Timeframe::H1 => "1h"@,
        Timeframe::H4 => "4h"@,
        Timeframe::D1 => "1d"@,
        Timeframe::W1 => "1w"@,
        Timeframe::MN1 => "1mo"@,
    }
}

/// The timeframe that a text names, if any.
pub open spec fn tagged(text: Seq<char>) -> Option<Timeframe> {
    if text == "1m"@ {
        Some(Timeframe::M1)
    } else if text == "5m"@ {
        Some(Timeframe::M5)
    } else if text == "15m"@ {
        Some(Timeframe::M15)
    } else if text == "30m"@ {
        Some(Timeframe::M30)
    } else if text == "1h"@ {
        Some(Timeframe::H1)
    } else if text == "4h"@ {
        Some(Timeframe::H4)
    } else if text == "1d"@ {
        Some(Timeframe::D1)
    } else if text == "1w"@ {
        Some(Timeframe::W1)
    } else if text == "1mo"@ {
        Some(Timeframe::MN1)
    } else {
        None
    }
}

/// Every timeframe is found again from its own tag.
pub proof fn law_tag_round_trip(tf: Timeframe)
    ensures
        tagged(tag_text(tf)) == Some(tf),
{
    reveal_strlit("1m");
    reveal_strlit("5m");
    reveal_strlit("15m");
    reveal_strlit("30m");
    reveal_strlit("1h");
    reveal_strlit("4h");
    reveal_strlit("1d");
    reveal_strlit("1w");
    reveal_strlit("1mo");
    assert("1m"@[0] == '1' && "1m"@[1] == 'm' && "1m"@.len() == 2);
    assert("5m"@[0] == '5');
    assert("15m"@.len() == 3 && "15m"@[0] == '1' && "15m"@[1] == '5');
    assert("30m"@[0] == '3');
    assert("1h"@[1] == 'h' && "1h"@[0] == '1' && "1h"@.len() == 2);
    assert("4h"@[0] == '4');
    assert("1d"@[1] == 'd' && "1d"@[0] == '1' && "1d"@.len() == 2);
    assert("1w"@[1] == 'w' && "1w"@[0] == '1' && "1w"@.len() == 2);
    assert("1mo"@.len() == 3 && "1mo"@[1] == 'm');
}

/// The timeframes that are built from one-minute candles, shortest first.
pub open spec fn higher_timeframes() -> Seq<Timeframe> {
    seq![
        Timeframe::M5,
        Timeframe::M15,
        Timeframe::M30,
        Timeframe::H1,
        Timeframe::H4,
        Timeframe::D1,
        Timeframe::W1,
        Timeframe::MN1,
    ]
}

impl Timeframe {
    /// Nominal length in milliseconds.
    pub fn duration_ms(self) -> (r: i64)
        ensures
            r == duration(self),
    {
        match self {
            Timeframe::M1 => 60_000,
            Timeframe::M5 => 300_000,
            Timeframe::M15 => 900_000,
            Timeframe::M30 => 1_800_000,
            Timeframe::H1 => 3_600_000,
            Timeframe::H4 => 14_400_000,
            Timeframe::D1 => 86_400_000,
            Timeframe::W1 => 604_800_000,
            Timeframe::MN1 => 2_592_000_000,
        }
    }

    /// Short text, such as `5m` or `4h`.
    pub fn tag(self) -> (r: &'static str)
        ensures
            r@ == tag_text(self),
    {
        match self {
            Timeframe::M1 => "1m",
            Timeframe::M5 => "5m",
            Timeframe::M15 => "15m",
            Timeframe::M30 => "30m",
            Timeframe::H1 => "1h",
            Timeframe::H4 => "4h",
            Timeframe::D1 => "1d",
            Timeframe::W1 => "1w",
            Timeframe::MN1 => "1mo",
        }
    }

    /// The timeframe with the given tag.
    pub fn from_tag(text: &str) -> (r: Option<Timeframe>)
        ensures
            r == tagged(text@),
    {
        if crate::text::text_eq(text, "1m") {
            Some(Timeframe::M1)
        } else if crate::text::text_eq(text, "5m") {
            Some(Timeframe::M5)
        } else if crate::text::text_eq(text, "15m") {
            Some(Timeframe::M15)
        } else if crate::text::text_eq(text, "30m") {
            Some(Timeframe::M30)
        } else if crate::text::text_eq(text, "1h") {
            Some(Timeframe::H1)
        } else if crate::text::text_eq(text, "4h") {
            Some(Timeframe::H4)
        } else if crate::text::text_eq(text, "1d") {
            Some(Timeframe::D1)
        } else if crate::text::text_eq(text, "1w") {
            Some(Timeframe::W1)
        } else if crate::text::text_eq(text, "1mo") {
            Some(Timeframe::MN1)
        } else {
            None
        }
    }

    /// The timeframes that one-minute candles feed into, shortest first.
    pub fn higher_than_m1() -> (r: Vec<Timeframe>)
        ensures
            r@ == higher_timeframes(),
    {
        let mut out: Vec<Timeframe> = Vec::new();
        out.push(Timeframe::M5);
        out.push(Timeframe::M15);
        out.push(Timeframe::M30);
        out.push(Timeframe::H1);
        out.push(Timeframe::H4);
        out.push(Timeframe::D1);
        out.push(Timeframe::W1);
        out.push(Timeframe::MN1);
        assert(out@ =~= higher_timeframes());
        out
    }
}

/// One candle. `ts` is the open time, prices and volume are fixed-point.
#[derive(Debug)]
pub struct Bar {
    pub symbol: String,
    pub tf: Timeframe,
    pub ts: i64,
    pub open: i64,
    pub high: i64,
    pub low: i64,
    pub close: i64,
    pub volume: i128,
}

/// Mathematical content of a [`Bar`].
pub struct BarModel {
    pub symbol: Seq<char>,
    pub tf: Timeframe,
    pub ts: i64,
    pub open: i64,
    pub high: i64,
    pub low: i64,
    pub close: i64,
    pub volume: i128,
}

impl View for Bar {
    type V = BarModel;

    open spec fn view(&self) -> BarModel {
        BarModel {
            symbol: self.symbol@,
            tf: self.tf,
            ts: self.ts,
            open: self.open,
            high: self.high,
            low: self.low,
            close: self.close,
            volume: self.volume,
        }
    }
}

impl DeepView for Bar {
    type V = BarModel;

    open spec fn deep_view(&self) -> BarModel {
        self@
    }
}

impl Clone for Bar {
    fn clone(&self) -> (r: Self)
        ensures
            r@ == self@,
    {
        Bar {
            symbol: self.symbol.clone(),
            tf: self.tf,
            ts: self.ts,
            open: self.open,
            high: self.high,
            low: self.low,
            close: self.close,
            volume: self.volume,
        }
    }
}

/// What the feed and the aggregator say about candles.
#[derive(Debug)]
pub enum BarEvent {
    /// A batch of closed candles, oldest first.
    Historical(Vec<Bar>),
    /// The current state of a candle that is still open.
    BarUpdate(Bar),
    /// A candle that is final.
    BarClosed(Bar),
}

/// Mathematical content of a [`BarEvent`].
pub enum BarEventModel {
    Historical(Seq<BarModel>),
    BarUpdate(BarModel),
    BarClosed(BarModel),
}

impl View for BarEvent {
    type V = BarEventModel;

    open spec fn view(&self) -> BarEventModel {
        match *self {
            BarEvent::Historical(bars) => BarEventModel::Historical(bars.deep_view()),
            BarEvent::BarUpdate(bar) => BarEventModel::BarUpdate(bar@),
            BarEvent::BarClosed(bar) => BarEventModel::BarClosed(bar@),
        }
    }
}

impl DeepView for BarEvent {
    type V = BarEventModel;

    open spec fn deep_view(&self) -> BarEventModel {
        self@
    }
}

/// A copy of a list of candles.
pub fn copy_bars(bars: &Vec<Bar>) -> (r: Vec<Bar>)
    ensures
        r.deep_view() == bars.deep_view(),
{
    let r = bars.clone();
    assert(r.deep_view() =~= bars.deep_view());
    r
}

impl Clone for BarEvent {
    fn clone(&self) -> (r: Self)
        ensures
            r@ == self@,
    {
        match self {
            BarEvent::Historical(bars) => BarEvent::Historical(copy_bars(bars)),
            BarEvent::BarUpdate(bar) => BarEvent::BarUpdate(bar.clone()),
            BarEvent::BarClosed(bar) => BarEvent::BarClosed(bar.clone()),
        }
    }
}

/// The largest volume that a minute may have: more than a quadrillion units.
pub const MINUTE_VOLUME_LIMIT: i128 = 1_208_925_819_614_629_174_706_176;

/// The largest volume that a longer candle may have: a month of such minutes, and more.
pub const VOLUME_LIMIT: i128 = 83_076_749_736_557_242_056_487_941_267_521_536;

/// An amount that is no larger than a limit, whatever its sign.
pub open spec fn within(x: int, limit: int) -> bool {
    -limit <= x <= limit
}

/// Whether [`within`] holds.
pub fn is_within(x: i128, limit: i128) -> (r: bool)
    requires
        0 <= limit,
    ensures
        r == within(x as int, limit as int),
{
    -limit <= x && x <= limit
}

/// The value held at the ends of the fixed-point range.
pub open spec fn clamped(x: int) -> int {
    if x > i64::MAX {
        i64::MAX as int
    } else if x < i64::MIN {
        i64::MIN as int
    } else {
        x
    }
}

/// Narrows a wide amount to the fixed-point range.
pub fn clamp_wide(x: i128) -> (r: i64)
    ensures
        r == clamped(x as int),
{
    if x > i64::MAX as i128 {
        i64::MAX
    } else if x < i64::MIN as i128 {
        i64::MIN
    } else {
        x as i64
    }
}

/// Sum held at the ends of the range.
pub fn saturating_sum(a: i64, b: i64) -> (r: i64)
    ensures
        r == clamped(a + b),
{
    clamp_wide(a as i128 + b as i128)
}

/// Difference held at the ends of the range.
pub fn saturating_difference(a: i64, b: i64) -> (r: i64)
    ensures
        r == clamped(a - b),
{
    clamp_wide(a as i128 - b as i128)
}

} // verus!
