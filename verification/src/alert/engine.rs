//! The alert engine: which changes fire, on which channels, and how often.
use vstd::prelude::*;
use crate::alert::records::{
    build_alert_for_validation, build_c2_alert, c2_alert, reversal_alert, reversal_symbol,
};
use crate::alert::types::{
    default_alert_config, AlertConfig, AlertModel, AlertRecord, ChannelKind,
};
use crate::candidate::rules::{find_chain, first_chain};
use crate::candidate::types::{
    CandidateChange, CandidateModel, CandidateSetup, ChangeModel, SetupStatus,
};
use crate::detector::{SmtDivergence, SmtModel};
use crate::table::Table;
use crate::text::{lemma_push_contains, list_has};
use crate::types::{clamped, duration, saturating_sum};

verus! {

/// What the alert store knows about earlier alerts of a candidate. A question
/// that the store could not answer counts as `false`.
#[derive(Clone, Copy, Debug, PartialEq, Eq, Structural)]
pub struct FiredFacts {
    /// The same episode already fired for the same instrument.
    pub episode_symbol: bool,
    /// The same candidate already fired in the same group for the same instrument.
    pub group_symbol: bool,
    /// The same candidate already fired for any instrument.
    pub candidate: bool,
}

impl FiredFacts {
    /// Nothing fired yet, or there is no store.
    pub fn none() -> (r: Self)
        ensures
            r == (FiredFacts { episode_symbol: false, group_symbol: false, candidate: false }),
    {
        FiredFacts { episode_symbol: false, group_symbol: false, candidate: false }
    }
}

/// State of the alert engine of one group.
pub struct AlertEngine {
    config: AlertConfig,
    prev_status: Table<SetupStatus>,
    last_global_alert_ts: i64,
    channels: Vec<ChannelKind>,
}

/// Mathematical content of an [`AlertEngine`].
pub struct AlertEngineModel {
    pub config: AlertConfig,
    /// The last known status of each candidate.
    pub status: Map<Seq<char>, SetupStatus>,
    /// When any group last fired a reversal record; 0 before the first.
    pub last_fired: i64,
    /// Registered channels, in order.
    pub channels: Seq<ChannelKind>,
}

impl View for AlertEngine {
    type V = AlertEngineModel;

    closed spec fn view(&self) -> AlertEngineModel {
        AlertEngineModel {
            config: self.config,
            status: self.prev_status@,
            last_fired: self.last_global_alert_ts,
            channels: self.channels@,
        }
    }
}

/// The shared cooldown is running.
pub open spec fn cooling(e: AlertEngineModel, now: i64) -> bool {
    &&& e.config.cooldown_seconds > 0
    &&& e.last_fired > 0
    &&& now - e.last_fired < e.config.cooldown_seconds * 1000
}

/// A change that is worth a record: a newly accepted reversal, or a candidate
/// that becomes validated without one.
pub open spec fn notable(e: AlertEngineModel, change: ChangeModel) -> bool {
    ||| change.validation_event is Some
    ||| {
        &&& change.candidate.setup_status is Validated
        &&& !(e.status.contains_key(change.candidate.id)
            && e.status[change.candidate.id] is Validated)
    }
}

/// The store already holds an alert for what the change is about.
pub open spec fn already_fired(change: ChangeModel, fired: FiredFacts) -> bool {
    match reversal_symbol(change.candidate, change.validation_event) {
        Some(_) => fired.episode_symbol || fired.group_symbol,
        None => fired.candidate,
    }
}

/// Whether a change fires a record.
pub open spec fn fires(
    e: AlertEngineModel,
    change: ChangeModel,
    now: i64,
    seeding: bool,
    fired: FiredFacts,
) -> bool {
    &&& !seeding
    &&& e.config.enabled
    &&& notable(e, change)
    &&& !already_fired(change, fired)
    &&& !cooling(e, now)
}

/// The registered channels that satisfy a condition.
pub open spec fn selected(channels: Seq<ChannelKind>, config: AlertConfig, c2: bool) -> Seq<
    ChannelKind,
>
    decreases channels.len(),
{
    if channels.len() == 0 {
        Seq::empty()
    } else {
        let rest = selected(channels.drop_last(), config, c2);
        if takes(channels.last(), config, c2) {
            rest.push(channels.last())
        } else {
            rest
        }
    }
}

/// A channel takes a record: the inbox takes every one, the notifying
/// channels only confirmed second candles and only while they are on.
pub open spec fn takes(channel: ChannelKind, config: AlertConfig, c2: bool) -> bool {
    match channel {
        ChannelKind::Inbox => true,
        ChannelKind::DesktopNotify => c2 && config.desktop_notify_enabled,
        ChannelKind::FeishuNotify => c2 && config.feishu_notify_enabled,
    }
}

/// The record that a change fires, if it fires one.
pub open spec fn fired_record(
    e: AlertEngineModel,
    change: ChangeModel,
    now: i64,
    seeding: bool,
    fired: FiredFacts,
) -> Option<AlertModel> {
    if fires(e, change, now, seeding, fired) {
        Some(
            reversal_alert(
                change.candidate,
                change.validation_event,
                now,
                selected(e.channels, e.config, false),
            ),
        )
    } else {
        None
    }
}

/// The engine after a change: it remembers the status always, and the time
/// only where a record fired.
pub open spec fn after_change(
    e: AlertEngineModel,
    change: ChangeModel,
    now: i64,
    seeding: bool,
    fired: FiredFacts,
) -> AlertEngineModel {
    AlertEngineModel {
        status: e.status.insert(change.candidate.id, change.candidate.setup_status),
        last_fired: if fires(e, change, now, seeding, fired) {
            now
        } else {
            e.last_fired
        },
        ..e
    }
}

/// The channels that a confirmed second candle goes to: none while seeding or
/// disabled.
pub open spec fn c2_channels(e: AlertEngineModel, seeding: bool) -> Seq<ChannelKind> {
    if seeding || !e.config.enabled {
        Seq::empty()
    } else {
        selected(e.channels, e.config, true)
    }
}

/// The record for one executable instrument of a candidate. A leg that
/// already ended gets none while live; while seeding its history is rebuilt.
pub open spec fn c2_record(
    e: AlertEngineModel,
    c: CandidateModel,
    smt: SmtModel,
    symbol: Seq<char>,
    seeding: bool,
) -> Option<AlertModel> {
    if !seeding && c.invalidated_symbols.contains(symbol) {
        None
    } else {
        match first_chain(smt.chains, symbol) {
            Some(chain) => match chain.c2_candle {
                Some(c2) => c2_alert(
                    c,
                    smt,
                    symbol,
                    clamped(c2.ts + duration(smt.comparison_timeframe)) as i64,
                    c2_channels(e, seeding),
                ),
                None => None,
            },
            None => None,
        }
    }
}

/// The record is already stored: the store held it before, or it was created
/// just now and there is a store.
pub open spec fn stored(
    known: Option<Seq<Seq<char>>>,
    created: Seq<AlertModel>,
    id: Seq<char>,
) -> bool {
    match known {
        Some(ids) => ids.contains(id) || has_id(created, id),
        None => false,
    }
}

/// One of the records has the identity.
pub open spec fn has_id(records: Seq<AlertModel>, id: Seq<char>) -> bool {
    exists|k: int| 0 <= k < records.len() && (#[trigger] records[k]).id == id
}

/// The records that a confirmed second candle creates for a list of
/// instruments, in order. `known` are the identities in the store, where there
/// is one.
pub open spec fn c2_created(
    e: AlertEngineModel,
    c: CandidateModel,
    smt: SmtModel,
    symbols: Seq<Seq<char>>,
    seeding: bool,
    known: Option<Seq<Seq<char>>>,
) -> Seq<AlertModel>
    decreases symbols.len(),
{
    if symbols.len() == 0 {
        Seq::empty()
    } else {
        let rest = c2_created(e, c, smt, symbols.drop_last(), seeding, known);
        match c2_record(e, c, smt, symbols.last(), seeding) {
            Some(record) => if stored(known, rest, record.id) {
                rest
            } else {
                rest.push(record)
            },
            None => rest,
        }
    }
}

/// A record that no inbox channel delivers is written to the store directly.
pub open spec fn written_directly(record: AlertModel) -> bool {
    !record.channels_fired.contains(ChannelKind::Inbox)
}

/// Statuses after hydrating from a list of candidates.
pub open spec fn hydrated(candidates: Seq<CandidateModel>) -> Map<Seq<char>, SetupStatus>
    decreases candidates.len(),
{
    if candidates.len() == 0 {
        Map::empty()
    } else {
        hydrated(candidates.drop_last()).insert(candidates.last().id, candidates.last().setup_status)
    }
}

/// Statuses after filling in the candidates that are not known yet.
pub open spec fn filled(
    status: Map<Seq<char>, SetupStatus>,
    candidates: Seq<CandidateModel>,
) -> Map<Seq<char>, SetupStatus>
    decreases candidates.len(),
{
    if candidates.len() == 0 {
        status
    } else {
        let rest = filled(status, candidates.drop_last());
        let c = candidates.last();
        if rest.contains_key(c.id) {
            rest
        } else {
            rest.insert(c.id, c.setup_status)
        }
    }
}

impl AlertEngine {
    /// An engine with default settings, no history and no channel.
    pub fn new() -> (r: Self)
        ensures
            r@ == (AlertEngineModel {
                config: default_alert_config(),
                status: Map::empty(),
                last_fired: 0,
                channels: Seq::empty(),
            }),
    {
        let r = AlertEngine {
            config: AlertConfig::default(),
            prev_status: Table::new(),
            last_global_alert_ts: 0,
            channels: Vec::new(),
        };
        assert(r.channels@ =~= Seq::<ChannelKind>::empty());
        r
    }

    /// Switches alerts on or off.
    pub fn set_enabled(&mut self, v: bool)
        ensures
            final(self)@ == (AlertEngineModel {
                config: AlertConfig { enabled: v, ..old(self)@.config },
                ..old(self)@
            }),
    {
        self.config.enabled = v;
    }

    /// Switches desktop notifications on or off.
    pub fn set_desktop_notify(&mut self, v: bool)
        ensures
            final(self)@ == (AlertEngineModel {
                config: AlertConfig { desktop_notify_enabled: v, ..old(self)@.config },
                ..old(self)@
            }),
    {
        self.config.desktop_notify_enabled = v;
    }

    /// Whether desktop notifications are on.
    pub fn desktop_notify_enabled(&self) -> (r: bool)
        ensures
            r == self@.config.desktop_notify_enabled,
    {
        self.config.desktop_notify_enabled
    }

    /// Switches Feishu notifications on or off.
    pub fn set_feishu_notify(&mut self, v: bool)
        ensures
            final(self)@ == (AlertEngineModel {
                config: AlertConfig { feishu_notify_enabled: v, ..old(self)@.config },
                ..old(self)@
            }),
    {
        self.config.feishu_notify_enabled = v;
    }

    /// Whether Feishu notifications are on.
    pub fn feishu_notify_enabled(&self) -> (r: bool)
        ensures
            r == self@.config.feishu_notify_enabled,
    {
        self.config.feishu_notify_enabled
    }

    /// Whether alerts are on.
    pub fn enabled(&self) -> (r: bool)
        ensures
            r == self@.config.enabled,
    {
        self.config.enabled
    }

    /// Sets the pause between two reversal records.
    pub fn set_cooldown_seconds(&mut self, s: i64)
        ensures
            final(self)@ == (AlertEngineModel {
                config: AlertConfig { cooldown_seconds: s, ..old(self)@.config },
                ..old(self)@
            }),
    {
        self.config.cooldown_seconds = s;
    }

    /// Registers a channel.
    pub fn add_channel(&mut self, channel: ChannelKind)
        ensures
            final(self)@ == (AlertEngineModel {
                channels: old(self)@.channels.push(channel),
                ..old(self)@
            }),
    {
        self.channels.push(channel);
    }

    /// When any group last fired; 0 before the first.
    pub fn last_global_alert_ts(&self) -> (r: i64)
        ensures
            r == self@.last_fired,
    {
        self.last_global_alert_ts
    }

    /// Takes over the time of the last record of any group, which the groups
    /// share.
    pub fn set_last_global_alert_ts(&mut self, ts: i64)
        ensures
            final(self)@ == (AlertEngineModel { last_fired: ts, ..old(self)@ }),
    {
        self.last_global_alert_ts = ts;
    }

    fn is_cooling(&self, now: i64) -> (r: bool)
        ensures
            r == cooling(self@, now),
    {
        if self.config.cooldown_seconds > 0 && self.last_global_alert_ts > 0 {
            let elapsed: i128 = now as i128 - self.last_global_alert_ts as i128;
            elapsed < self.config.cooldown_seconds as i128 * 1000
        } else {
            false
        }
    }

    fn select(&self, c2: bool) -> (r: Vec<ChannelKind>)
        ensures
            r@ == selected(self@.channels, self@.config, c2),
    {
        let mut out: Vec<ChannelKind> = Vec::new();
        let mut i: usize = 0;
        assert(out@ =~= Seq::<ChannelKind>::empty());
        while i < self.channels.len()
            invariant
                i <= self.channels.len(),
                out@ == selected(self.channels@.take(i as int), self.config, c2),
            decreases self.channels.len() - i,
        {
            let channel = self.channels[i];
            let wanted = match channel {
                ChannelKind::Inbox => true,
                ChannelKind::DesktopNotify => c2 && self.config.desktop_notify_enabled,
                ChannelKind::FeishuNotify => c2 && self.config.feishu_notify_enabled,
            };
            proof {
                let now = self.channels@.take(i + 1);
                assert(now.drop_last() =~= self.channels@.take(i as int));
                assert(now.last() == channel);
            }
            if wanted {
                out.push(channel);
            }
            i += 1;
        }
        assert(self.channels@.take(i as int) =~= self.channels@);
        out
    }

    /// Takes in a change of a candidate and returns the record that it fires,
    /// if any. The caller delivers the record to the channels it names, and
    /// writes it to the store where [`written_directly`] says so.
    pub fn on_candidate_change(
        &mut self,
        change: &CandidateChange,
        now: i64,
        seeding: bool,
        fired: FiredFacts,
    ) -> (r: Option<AlertRecord>)
        ensures
            r.deep_view() == fired_record(old(self)@, change@, now, seeding, fired),
            final(self)@ == after_change(old(self)@, change@, now, seeding, fired),
    {
        let previous = self.prev_status.get(change.candidate.id.as_str());
        let status = change.candidate.setup_status;
        self.prev_status.insert(change.candidate.id.as_str(), status);
        if seeding || !self.config.enabled {
            return None;
        }
        let accepted = change.validation_event.is_some();
        let becomes_validated = matches!(status, SetupStatus::Validated) && !matches!(
            previous,
            Some(SetupStatus::Validated)
        );
        if !accepted && !becomes_validated {
            return None;
        }
        let symbol_known = accepted || change.candidate.validation_symbol.is_some();
        let duplicate = if symbol_known {
            fired.episode_symbol || fired.group_symbol
        } else {
            fired.candidate
        };
        if duplicate || self.is_cooling(now) {
            return None;
        }
        let channels = self.select(false);
        let record = match &change.validation_event {
            Some(v) => build_alert_for_validation(&change.candidate, Some(v), now, channels),
            None => build_alert_for_validation(&change.candidate, None, now, channels),
        };
        self.last_global_alert_ts = now;
        Some(record)
    }

    fn c2_record_for(
        &self,
        candidate: &CandidateSetup,
        smt: &SmtDivergence,
        symbol: &str,
        seeding: bool,
    ) -> (r: Option<AlertRecord>)
        ensures
            r.deep_view() == c2_record(self@, candidate@, smt@, symbol@, seeding),
    {
        if !seeding && list_has(&candidate.invalidated_symbols, symbol) {
            return None;
        }
        let c2 = match find_chain(&smt.chains, symbol) {
            Some(chain) => match &chain.c2_candle {
                Some(c2) => *c2,
                None => return None,
            },
            None => return None,
        };
        let alert_ts: i64 = saturating_sum(c2.ts, smt.comparison_timeframe.duration_ms());
        let channels: Vec<ChannelKind> = if seeding || !self.config.enabled {
            Vec::new()
        } else {
            self.select(true)
        };
        assert(channels@ =~= c2_channels(self@, seeding));
        build_c2_alert(candidate, smt, symbol, alert_ts, channels)
    }

    /// Creates the missing records of a confirmed second candle, one per
    /// executable instrument; the pause between reversal records does not
    /// apply. `known` are the identities in the alert store, where there is
    /// one, so that the same confirmation never creates a record twice.
    pub fn on_c2_confirmed(
        &self,
        candidate: &CandidateSetup,
        smt: &SmtDivergence,
        seeding: bool,
        known: Option<&Vec<String>>,
    ) -> (r: Vec<AlertRecord>)
        ensures
            r.deep_view() == c2_created(
                self@,
                candidate@,
                smt@,
                candidate@.trade_symbols,
                seeding,
                match known {
                    Some(ids) => Some(ids.deep_view()),
                    None => None,
                },
            ),
    {
        let ghost ids: Option<Seq<Seq<char>>> = match known {
            Some(ids) => Some(ids.deep_view()),
            None => None,
        };
        let mut created: Vec<AlertRecord> = Vec::new();
        let mut i: usize = 0;
        assert(created.deep_view() =~= Seq::<AlertModel>::empty());
        while i < candidate.trade_symbols.len()
            invariant
                i <= candidate.trade_symbols.len(),
                ids == (match known {
                    Some(ids) => Some(ids.deep_view()),
                    None => None,
                }),
                created.deep_view() == c2_created(
                    self@,
                    candidate@,
                    smt@,
                    candidate.trade_symbols.deep_view().take(i as int),
                    seeding,
                    ids,
                ),
            decreases candidate.trade_symbols.len() - i,
        {
            let ghost before = created.deep_view();
            proof {
                let now = candidate.trade_symbols.deep_view().take(i + 1);
                assert(now.drop_last() =~= candidate.trade_symbols.deep_view().take(i as int));
                assert(now.last() == candidate.trade_symbols@[i as int]@);
            }
            let record = self.c2_record_for(
                candidate,
                smt,
                candidate.trade_symbols[i].as_str(),
                seeding,
            );
            match record {
                Some(record) => {
                    let held = match known {
                        Some(ids) => list_has(ids, record.id.as_str()) || holds_id(
                            &created,
                            record.id.as_str(),
                        ),
                        None => false,
                    };
                    if !held {
                        let ghost content = record@;
                        created.push(record);
                        assert(created.deep_view() =~= before.push(content));
                    }
                },
                None => {},
            }
            i += 1;
        }
        assert(candidate.trade_symbols.deep_view().take(i as int)
            =~= candidate.trade_symbols.deep_view());
        created
    }

    /// Whether a candidate may fire now. `fired` says that the store already
    /// holds an alert for it.
    pub fn should_fire(&self, fired: bool, now: i64) -> (r: bool)
        ensures
            r == (!fired && !cooling(self@, now)),
    {
        !fired && !self.is_cooling(now)
    }

    /// Whether a candidate may fire now for an instrument, or for any where
    /// none is given.
    pub fn should_fire_for_symbol(
        &self,
        validation_symbol: Option<&str>,
        fired_for_symbol: bool,
        fired_for_candidate: bool,
        now: i64,
    ) -> (r: bool)
        ensures
            r == (!(match validation_symbol {
                Some(_) => fired_for_symbol,
                None => fired_for_candidate,
            }) && !cooling(self@, now)),
    {
        let fired = match validation_symbol {
            Some(_) => fired_for_symbol,
            None => fired_for_candidate,
        };
        !fired && !self.is_cooling(now)
    }

    /// Forgets every status and takes over those of the given candidates.
    pub fn hydrate(&mut self, candidates: &Vec<CandidateSetup>)
        ensures
            final(self)@ == (AlertEngineModel {
                status: hydrated(candidates.deep_view()),
                ..old(self)@
            }),
    {
        self.prev_status = Table::new();
        let mut i: usize = 0;
        while i < candidates.len()
            invariant
                i <= candidates.len(),
                self@ == (AlertEngineModel {
                    status: hydrated(candidates.deep_view().take(i as int)),
                    ..old(self)@
                }),
            decreases candidates.len() - i,
        {
            proof {
                let now = candidates.deep_view().take(i + 1);
                assert(now.drop_last() =~= candidates.deep_view().take(i as int));
                assert(now.last() == candidates@[i as int]@);
            }
            self.prev_status.insert(candidates[i].id.as_str(), candidates[i].setup_status);
            i += 1;
        }
        assert(candidates.deep_view().take(i as int) =~= candidates.deep_view());
    }

    /// Takes over the statuses of candidates that are not known yet.
    pub fn hydrate_missing(&mut self, candidates: &Vec<CandidateSetup>)
        ensures
            final(self)@ == (AlertEngineModel {
                status: filled(old(self)@.status, candidates.deep_view()),
                ..old(self)@
            }),
    {
        let mut i: usize = 0;
        while i < candidates.len()
            invariant
                i <= candidates.len(),
                self@ == (AlertEngineModel {
                    status: filled(old(self)@.status, candidates.deep_view().take(i as int)),
                    ..old(self)@
                }),
            decreases candidates.len() - i,
        {
            proof {
                let now = candidates.deep_view().take(i + 1);
                assert(now.drop_last() =~= candidates.deep_view().take(i as int));
                assert(now.last() == candidates@[i as int]@);
            }
            if self.prev_status.get(candidates[i].id.as_str()).is_none() {
                self.prev_status.insert(candidates[i].id.as_str(), candidates[i].setup_status);
            }
            i += 1;
        }
        assert(candidates.deep_view().take(i as int) =~= candidates.deep_view());
    }
}

/// Whether a record has to be written to the store directly, because no inbox
/// channel does it.
pub fn writes_directly(record: &AlertRecord) -> (r: bool)
    ensures
        r == written_directly(record@),
{
    let mut i: usize = 0;
    while i < record.channels_fired.len()
        invariant
            i <= record.channels_fired.len(),
            forall|k: int| 0 <= k < i ==> record.channels_fired@[k] != ChannelKind::Inbox,
        decreases record.channels_fired.len() - i,
    {
        if matches!(record.channels_fired[i], ChannelKind::Inbox) {
            assert(record.channels_fired@[i as int] == ChannelKind::Inbox);
            return false;
        }
        i += 1;
    }
    true
}

fn holds_id(records: &Vec<AlertRecord>, id: &str) -> (r: bool)
    ensures
        r == has_id(records.deep_view(), id@),
{
    let mut i: usize = 0;
    while i < records.len()
        invariant
            i <= records.len(),
            forall|k: int| 0 <= k < i ==> (#[trigger] records.deep_view()[k]).id != id@,
        decreases records.len() - i,
    {
        if crate::text::text_eq(records[i].id.as_str(), id) {
            assert(records.deep_view()[i as int].id == id@);
            return true;
        }
        i += 1;
    }
    false
}

/// Reversal records never notify: they go to inbox channels alone.
pub proof fn law_reversals_never_notify(channels: Seq<ChannelKind>, config: AlertConfig)
    ensures
        forall|k: int|
            0 <= k < selected(channels, config, false).len() ==> #[trigger] selected(
                channels,
                config,
                false,
            )[k] is Inbox,
    decreases channels.len(),
{
    if channels.len() > 0 {
        law_reversals_never_notify(channels.drop_last(), config);
    }
}

/// A notifying channel that is switched off never receives a record.
pub proof fn law_disabled_channels_are_silent(
    channels: Seq<ChannelKind>,
    config: AlertConfig,
    c2: bool,
)
    ensures
        !config.desktop_notify_enabled ==> !selected(channels, config, c2).contains(
            ChannelKind::DesktopNotify,
        ),
        !config.feishu_notify_enabled ==> !selected(channels, config, c2).contains(
            ChannelKind::FeishuNotify,
        ),
    decreases channels.len(),
{
    if channels.len() > 0 {
        let rest = selected(channels.drop_last(), config, c2);
        law_disabled_channels_are_silent(channels.drop_last(), config, c2);
        lemma_push_contains(rest, channels.last(), ChannelKind::DesktopNotify);
        lemma_push_contains(rest, channels.last(), ChannelKind::FeishuNotify);
    }
}

/// Every registered inbox receives every record.
pub proof fn law_inbox_receives_everything(
    channels: Seq<ChannelKind>,
    config: AlertConfig,
    c2: bool,
)
    requires
        channels.contains(ChannelKind::Inbox),
    ensures
        selected(channels, config, c2).contains(ChannelKind::Inbox),
    decreases channels.len(),
{
    let rest = selected(channels.drop_last(), config, c2);
    assert(channels =~= channels.drop_last().push(channels.last()));
    lemma_push_contains(channels.drop_last(), channels.last(), ChannelKind::Inbox);
    lemma_push_contains(rest, channels.last(), ChannelKind::Inbox);
    if channels.last() != ChannelKind::Inbox {
        law_inbox_receives_everything(channels.drop_last(), config, c2);
    }
}

/// Seeding never fires, and a later change to the same status stays silent.
pub proof fn law_seeded_status_stays_silent(
    e: AlertEngineModel,
    change: ChangeModel,
    now: i64,
    later: i64,
    fired: FiredFacts,
)
    requires
        change.validation_event is None,
    ensures
        fired_record(e, change, now, true, fired) is None,
        fired_record(after_change(e, change, now, true, fired), change, later, false, fired) is None,
{
}

/// A change is reported at most once by transition: right after it, the same
/// change without a reversal stays silent.
pub proof fn law_same_status_does_not_fire_again(
    e: AlertEngineModel,
    change: ChangeModel,
    now: i64,
    later: i64,
    seeding: bool,
    fired: FiredFacts,
)
    requires
        change.validation_event is None,
    ensures
        fired_record(after_change(e, change, now, seeding, fired), change, later, false, fired)
            is None,
{
}

/// Within the pause after a record, no group fires another reversal record.
pub proof fn law_cooldown_is_shared(
    e: AlertEngineModel,
    other: AlertEngineModel,
    change: ChangeModel,
    next: ChangeModel,
    now: i64,
    later: i64,
    fired: FiredFacts,
)
    requires
        fires(e, change, now, false, fired),
        now > 0,
        other.last_fired == after_change(e, change, now, false, fired).last_fired,
        other.config.cooldown_seconds > 0,
        later - now < other.config.cooldown_seconds * 1000,
    ensures
        !fires(other, next, later, false, fired),
{
}

proof fn lemma_created_ids(
    e: AlertEngineModel,
    c: CandidateModel,
    smt: SmtModel,
    symbols: Seq<Seq<char>>,
    seeding: bool,
    ids: Seq<Seq<char>>,
    k: int,
)
    requires
        0 <= k < symbols.len(),
    ensures
        c2_record(e, c, smt, symbols[k], seeding) matches Some(record) ==> stored(
            Some(ids),
            c2_created(e, c, smt, symbols, seeding, Some(ids)),
            record.id,
        ),
    decreases symbols.len(),
{
    let rest = c2_created(e, c, smt, symbols.drop_last(), seeding, Some(ids));
    let all = c2_created(e, c, smt, symbols, seeding, Some(ids));
    match c2_record(e, c, smt, symbols[k], seeding) {
        Some(record) => {
            if k < symbols.len() - 1 {
                lemma_created_ids(e, c, smt, symbols.drop_last(), seeding, ids, k);
                if has_id(rest, record.id) {
                    let j = choose|j: int|
                        0 <= j < rest.len() && (#[trigger] rest[j]).id == record.id;
                    assert(all[j].id == record.id);
                }
            } else if !stored(Some(ids), rest, record.id) {
                assert(all[rest.len() as int].id == record.id);
            }
        },
        None => {},
    }
}

/// Identities of a list of records.
pub open spec fn ids_of(records: Seq<AlertModel>) -> Seq<Seq<char>> {
    Seq::new(records.len(), |k: int| records[k].id)
}

proof fn lemma_nothing_new(
    e: AlertEngineModel,
    c: CandidateModel,
    smt: SmtModel,
    symbols: Seq<Seq<char>>,
    seeding: bool,
    ids: Seq<Seq<char>>,
)
    requires
        forall|k: int|
            0 <= k < symbols.len() ==> (c2_record(e, c, smt, #[trigger] symbols[k], seeding)
                matches Some(record) ==> ids.contains(record.id)),
    ensures
        c2_created(e, c, smt, symbols, seeding, Some(ids)) == Seq::<AlertModel>::empty(),
    decreases symbols.len(),
{
    if symbols.len() > 0 {
        assert forall|k: int| 0 <= k < symbols.drop_last().len() implies (c2_record(
            e,
            c,
            smt,
            #[trigger] symbols.drop_last()[k],
            seeding,
        ) matches Some(record) ==> ids.contains(record.id)) by {
            assert(symbols.drop_last()[k] == symbols[k]);
        }
        lemma_nothing_new(e, c, smt, symbols.drop_last(), seeding, ids);
        assert(symbols.last() == symbols[symbols.len() - 1]);
    }
}

/// What one confirmation created, it creates no second time: once the created
/// records are stored, the same confirmation creates nothing.
pub proof fn law_confirmation_creates_once(
    e: AlertEngineModel,
    c: CandidateModel,
    smt: SmtModel,
    seeding: bool,
    ids: Seq<Seq<char>>,
)
    ensures
        ({
            let created = c2_created(e, c, smt, c.trade_symbols, seeding, Some(ids));
            c2_created(e, c, smt, c.trade_symbols, seeding, Some(ids + ids_of(created))) == Seq::<
                AlertModel,
            >::empty()
        }),
{
    let created = c2_created(e, c, smt, c.trade_symbols, seeding, Some(ids));
    let held = ids + ids_of(created);
    assert forall|k: int| 0 <= k < c.trade_symbols.len() implies (c2_record(
        e,
        c,
        smt,
        #[trigger] c.trade_symbols[k],
        seeding,
    ) matches Some(record) ==> held.contains(record.id)) by {
        match c2_record(e, c, smt, c.trade_symbols[k], seeding) {
            Some(record) => {
                lemma_created_ids(e, c, smt, c.trade_symbols, seeding, ids, k);
                if ids.contains(record.id) {
                    let j = choose|j: int| 0 <= j < ids.len() && ids[j] == record.id;
                    assert(held[j] == record.id);
                } else {
                    let j = choose|j: int|
                        0 <= j < created.len() && (#[trigger] created[j]).id == record.id;
                    assert(held[ids.len() + j] == record.id);
                }
            },
            None => {},
        }
    }
    lemma_nothing_new(e, c, smt, c.trade_symbols, seeding, held);
}

/// A record depends on the seeding state and the settings only through its
/// channels: a silent record has the identity of the live one.
pub proof fn law_silent_record_has_the_live_identity(
    e: AlertEngineModel,
    other: AlertEngineModel,
    c: CandidateModel,
    smt: SmtModel,
    symbol: Seq<char>,
)
    requires
        !c.invalidated_symbols.contains(symbol),
    ensures
        c2_record(e, c, smt, symbol, true) is Some == c2_record(other, c, smt, symbol, false)
            is Some,
        c2_record(e, c, smt, symbol, true) matches Some(silent) ==> silent.id == c2_record(
            other,
            c,
            smt,
            symbol,
            false,
        )->0.id && silent.channels_fired.len() == 0,
{
}

/// Recovered confirmations stay silent for good: what seeding stored never
/// fires again when the same confirmation comes in live.
pub proof fn law_recovered_confirmation_stays_silent(
    e: AlertEngineModel,
    c: CandidateModel,
    smt: SmtModel,
    ids: Seq<Seq<char>>,
)
    ensures
        ({
            let recovered = c2_created(e, c, smt, c.trade_symbols, true, Some(ids));
            c2_created(e, c, smt, c.trade_symbols, false, Some(ids + ids_of(recovered))) == Seq::<
                AlertModel,
            >::empty()
        }),
{
    let recovered = c2_created(e, c, smt, c.trade_symbols, true, Some(ids));
    let held = ids + ids_of(recovered);
    assert forall|k: int| 0 <= k < c.trade_symbols.len() implies (c2_record(
        e,
        c,
        smt,
        #[trigger] c.trade_symbols[k],
        false,
    ) matches Some(record) ==> held.contains(record.id)) by {
        let symbol = c.trade_symbols[k];
        if !c.invalidated_symbols.contains(symbol) {
            law_silent_record_has_the_live_identity(e, e, c, smt, symbol);
            match c2_record(e, c, smt, symbol, true) {
                Some(record) => {
                    lemma_created_ids(e, c, smt, c.trade_symbols, true, ids, k);
                    if ids.contains(record.id) {
                        let j = choose|j: int| 0 <= j < ids.len() && ids[j] == record.id;
                        assert(held[j] == record.id);
                    } else {
                        let j = choose|j: int|
                            0 <= j < recovered.len() && (#[trigger] recovered[j]).id == record.id;
                        assert(held[ids.len() + j] == record.id);
                    }
                },
                None => {},
            }
        }
    }
    lemma_nothing_new(e, c, smt, c.trade_symbols, false, held);
}

} // verus!
