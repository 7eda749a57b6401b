//! What the command line of a backtest asks for.
use vstd::prelude::*;
use crate::backtest::model::ExitMode;
use crate::text::{
    all_digits, chars_of, decimal, digits_value, lemma_digits, lemma_value_grows, owned, text_eq,
    trim, trimmed,
};

verus! {

/// What a run was asked to do. A path that is not given has a default.
#[derive(Debug)]
pub struct Options {
    pub source: Option<String>,
    pub eval_db: Option<String>,
    pub reports: Option<String>,
    pub cohort: String,
    pub mode: ExitMode,
    pub entry_bars: usize,
    pub holding_bars: Option<usize>,
    pub ttl_mtf_bars: usize,
}

/// Mathematical content of [`Options`].
pub struct OptionsModel {
    pub source: Option<Seq<char>>,
    pub eval_db: Option<Seq<char>>,
    pub reports: Option<Seq<char>>,
    pub cohort: Seq<char>,
    pub mode: ExitMode,
    pub entry_bars: usize,
    pub holding_bars: Option<usize>,
    pub ttl_mtf_bars: usize,
}

impl View for Options {
    type V = OptionsModel;

    open spec fn view(&self) -> OptionsModel {
        OptionsModel {
            source: self.source.deep_view(),
            eval_db: self.eval_db.deep_view(),
            reports: self.reports.deep_view(),
            cohort: self.cohort@,
            mode: self.mode,
            entry_bars: self.entry_bars,
            holding_bars: self.holding_bars,
            ttl_mtf_bars: self.ttl_mtf_bars,
        }
    }
}

/// A command: show the help, or run.
#[derive(Debug)]
pub enum Command {
    Help,
    Run(Options),
}

/// What is asked for without any option.
pub open spec fn default_options() -> OptionsModel {
    OptionsModel {
        source: None,
        eval_db: None,
        reports: None,
        cohort: "initial"@,
        mode: ExitMode::Targets,
        entry_bars: 288,
        holding_bars: None,
        ttl_mtf_bars: 5,
    }
}

/// The digits of a number that may carry a plus sign.
pub open spec fn unsigned_part(s: Seq<char>) -> Seq<char> {
    if s.len() > 1 && s[0] == '+' {
        s.drop_first()
    } else {
        s
    }
}

/// A count written in decimal, or why it is none.
pub open spec fn count_in(s: Seq<char>) -> Result<int, Seq<char>> {
    let d = unsigned_part(s);
    if s.len() == 0 {
        Err("cannot parse integer from empty string"@)
    } else if !all_digits(d) {
        Err("invalid digit found in string"@)
    } else if digits_value(d) > usize::MAX {
        Err("number too large to fit in target type"@)
    } else {
        Ok(digits_value(d) as int)
    }
}

/// Reads a count written in decimal.
pub fn parse_count(s: &str) -> (r: Result<usize, String>)
    ensures
        match (count_in(s@), r) {
            (Ok(n), Ok(m)) => n == m,
            (Err(e), Err(f)) => e == f@,
            _ => false,
        },
{
    let chars = chars_of(s);
    if chars.len() == 0 {
        return Err(owned("cannot parse integer from empty string"));
    }
    let from: usize = if chars.len() > 1 && chars[0] == '+' {
        1
    } else {
        0
    };
    let ghost d = unsigned_part(s@);
    assert(d =~= chars@.skip(from as int));
    let mut i: usize = from;
    while i < chars.len()
        invariant
            from <= i <= chars.len(),
            from <= 1,
            chars@ == s@,
            chars.len() > 0,
            d == unsigned_part(s@),
            d == chars@.skip(from as int),
            forall|k: int| 0 <= k < i - from ==> '0' <= #[trigger] d[k] && d[k] <= '9',
        decreases chars.len() - i,
    {
        assert(d[i - from] == chars@[i as int]);
        if chars[i] < '0' || chars[i] > '9' {
            assert(!all_digits(d));
            return Err(owned("invalid digit found in string"));
        }
        i += 1;
    }
    assert(all_digits(d));
    let mut value: usize = 0;
    let mut j: usize = from;
    assert(d.take(0) =~= Seq::<char>::empty());
    while j < chars.len()
        invariant
            from <= j <= chars.len(),
            from <= 1,
            chars@ == s@,
            chars.len() > 0,
            d == unsigned_part(s@),
            d == chars@.skip(from as int),
            all_digits(d),
            value == digits_value(d.take(j - from)),
        decreases chars.len() - j,
    {
        let ghost now = d.take(j - from + 1);
        assert(now.drop_last() =~= d.take(j - from));
        assert(now.last() == chars@[j as int]);
        assert(d[j - from] == chars@[j as int]);
        let digit: u32 = chars[j] as u32 - '0' as u32;
        let wide: u128 = (value as u128) * 10 + (digit as u128);
        assert(wide == digits_value(now));
        if wide > usize::MAX as u128 {
            proof {
                lemma_value_grows(d, j - from + 1);
            }
            return Err(owned("number too large to fit in target type"));
        }
        value = wide as usize;
        j += 1;
    }
    assert(d.take(j - from) =~= d);
    Ok(value)
}

/// The options after one more flag and its value.
pub open spec fn with_flag(o: OptionsModel, flag: Seq<char>, value: Seq<char>) -> Result<
    OptionsModel,
    Seq<char>,
> {
    if flag == "--source"@ {
        Ok(OptionsModel { source: Some(value), ..o })
    } else if flag == "--eval-db"@ {
        Ok(OptionsModel { eval_db: Some(value), ..o })
    } else if flag == "--reports"@ {
        Ok(OptionsModel { reports: Some(value), ..o })
    } else if flag == "--cohort"@ {
        Ok(OptionsModel { cohort: value, ..o })
    } else if flag == "--mode"@ {
        if value == "targets"@ {
            Ok(OptionsModel { mode: ExitMode::Targets, ..o })
        } else if value == "fixed-r"@ {
            Ok(OptionsModel { mode: ExitMode::FixedR, ..o })
        } else if value == "user-v1"@ {
            Ok(OptionsModel { mode: ExitMode::UserV1, ..o })
        } else {
            Err("mode must be targets, fixed-r or user-v1"@)
        }
    } else if flag == "--entry-bars"@ {
        match count_in(value) {
            Ok(n) => Ok(OptionsModel { entry_bars: n as usize, ..o }),
            Err(e) => Err(e),
        }
    } else if flag == "--holding-bars"@ {
        match count_in(value) {
            Ok(n) => Ok(OptionsModel { holding_bars: Some(n as usize), ..o }),
            Err(e) => Err(e),
        }
    } else if flag == "--ttl-mtf-bars"@ {
        match count_in(value) {
            Ok(n) => Ok(OptionsModel { ttl_mtf_bars: n as usize, ..o }),
            Err(e) => Err(e),
        }
    } else {
        Err("unknown option "@ + flag)
    }
}

/// The options after a list of flags and values.
pub open spec fn with_flags(o: OptionsModel, args: Seq<Seq<char>>) -> Result<OptionsModel, Seq<char>>
    decreases args.len(),
{
    if args.len() == 0 {
        Ok(o)
    } else if args.len() == 1 {
        Err("missing value for "@ + args[0])
    } else {
        match with_flag(o, args[0], args[1]) {
            Ok(next) => with_flags(next, args.skip(2)),
            Err(e) => Err(e),
        }
    }
}

/// The numbers are in their ranges and the cohort has a name.
pub open spec fn acceptable(o: OptionsModel) -> bool {
    &&& trimmed(o.cohort).len() > 0
    &&& 0 < o.entry_bars <= 100_000
    &&& o.holding_bars matches Some(n) ==> 0 < n <= 100_000
    &&& 0 < o.ttl_mtf_bars <= 100
}

/// What a command line asks for.
pub open spec fn asked(args: Seq<Seq<char>>) -> Result<Option<OptionsModel>, Seq<char>> {
    if args.contains("--help"@) || args.contains("-h"@) {
        Ok(None)
    } else {
        match with_flags(default_options(), args) {
            Err(e) => Err(e),
            Ok(o) => if acceptable(o) {
                Ok(Some(o))
            } else {
                Err("invalid cohort/window parameters"@)
            },
        }
    }
}

fn apply_flag(o: &mut Options, flag: &str, value: &str) -> (r: Result<(), String>)
    ensures
        match (with_flag(old(o)@, flag@, value@), r) {
            (Ok(next), Ok(_)) => final(o)@ == next,
            (Err(e), Err(f)) => e == f@,
            _ => false,
        },
{
    if text_eq(flag, "--source") {
        o.source = Some(owned(value));
    } else if text_eq(flag, "--eval-db") {
        o.eval_db = Some(owned(value));
    } else if text_eq(flag, "--reports") {
        o.reports = Some(owned(value));
    } else if text_eq(flag, "--cohort") {
        o.cohort = owned(value);
    } else if text_eq(flag, "--mode") {
        if text_eq(value, "targets") {
            o.mode = ExitMode::Targets;
        } else if text_eq(value, "fixed-r") {
            o.mode = ExitMode::FixedR;
        } else if text_eq(value, "user-v1") {
            o.mode = ExitMode::UserV1;
        } else {
            return Err(owned("mode must be targets, fixed-r or user-v1"));
        }
    } else if text_eq(flag, "--entry-bars") {
        match parse_count(value) {
            Ok(n) => {
                o.entry_bars = n;
            },
            Err(e) => return Err(e),
        }
    } else if text_eq(flag, "--holding-bars") {
        match parse_count(value) {
            Ok(n) => {
                o.holding_bars = Some(n);
            },
            Err(e) => return Err(e),
        }
    } else if text_eq(flag, "--ttl-mtf-bars") {
        match parse_count(value) {
            Ok(n) => {
                o.ttl_mtf_bars = n;
            },
            Err(e) => return Err(e),
        }
    } else {
        let mut e = owned("unknown option ");
        e.append(flag);
        return Err(e);
    }
    Ok(())
}

/// Reads a command line, without the name of the program.
pub fn parse_arguments(args: &Vec<String>) -> (r: Result<Command, String>)
    ensures
        match (asked(args.deep_view()), r) {
            (Ok(None), Ok(Command::Help)) => true,
            (Ok(Some(o)), Ok(Command::Run(p))) => o == p@,
            (Err(e), Err(f)) => e == f@,
            _ => false,
        },
{
    if crate::text::list_has(args, "--help") || crate::text::list_has(args, "-h") {
        return Ok(Command::Help);
    }
    let mut o = Options {
        source: None,
        eval_db: None,
        reports: None,
        cohort: owned("initial"),
        mode: ExitMode::Targets,
        entry_bars: 288,
        holding_bars: None,
        ttl_mtf_bars: 5,
    };
    let mut i: usize = 0;
    let ghost goal = with_flags(default_options(), args.deep_view());
    assert(args.deep_view().skip(0) =~= args.deep_view());
    assert(o@ == default_options());
    while i < args.len()
        invariant
            i <= args.len(),
            goal == with_flags(default_options(), args.deep_view()),
            goal == with_flags(o@, args.deep_view().skip(i as int)),
            !(args.deep_view().contains("--help"@) || args.deep_view().contains("-h"@)),
        decreases args.len() - i,
    {
        let ghost rest = args.deep_view().skip(i as int);
        assert(rest[0] == args@[i as int]@);
        if args.len() - i == 1 {
            let mut e = owned("missing value for ");
            e.append(args[i].as_str());
            return Err(e);
        }
        assert(rest[1] == args@[i + 1]@);
        assert(rest.skip(2) =~= args.deep_view().skip(i + 2));
        match apply_flag(&mut o, args[i].as_str(), args[i + 1].as_str()) {
            Ok(()) => {},
            Err(e) => return Err(e),
        }
        i += 2;
    }
    assert(args.deep_view().skip(i as int) =~= Seq::<Seq<char>>::empty());
    let name = trim(o.cohort.as_str());
    proof {
        reveal_strlit("");
        assert(name@.len() == 0 ==> name@ =~= ""@);
    }
    let long_held = match o.holding_bars {
        Some(n) => n == 0 || n > 100_000,
        None => false,
    };
    if text_eq(name.as_str(), "") || o.entry_bars == 0 || o.entry_bars > 100_000 || long_held
        || o.ttl_mtf_bars == 0 || o.ttl_mtf_bars > 100 {
        return Err(owned("invalid cohort/window parameters"));
    }
    Ok(Command::Run(o))
}

/// A path begins with another, part by part.
pub open spec fn lies_in(path: Seq<Seq<char>>, dir: Seq<Seq<char>>) -> bool {
    dir.len() <= path.len() && path.take(dir.len() as int) == dir
}

/// Why the outputs of a run must not be written: they have to be apart from
/// the source and from each other, and the database must not be one of the
/// files that belong to the source.
pub open spec fn output_fault(
    source: Seq<Seq<char>>,
    eval: Seq<Seq<char>>,
    reports: Seq<Seq<char>>,
    source_text: Seq<char>,
    eval_text: Seq<char>,
    same_file: bool,
) -> Option<Seq<char>> {
    if eval == source || reports == source || eval == reports || lies_in(eval, reports) {
        Some("source/eval/report paths must be separate"@)
    } else if eval_text == source_text + "-wal"@ || eval_text == source_text + "-shm"@ || eval_text
        == source_text + "-journal"@ {
        Some("eval path aliases source SQLite companion"@)
    } else if same_file {
        Some("eval path hard-links source"@)
    } else {
        None
    }
}

fn begins_with_parts(path: &Vec<String>, dir: &Vec<String>) -> (r: bool)
    ensures
        r == lies_in(path.deep_view(), dir.deep_view()),
{
    if dir.len() > path.len() {
        return false;
    }
    let mut i: usize = 0;
    while i < dir.len()
        invariant
            i <= dir.len() <= path.len(),
            forall|k: int| 0 <= k < i ==> #[trigger] path.deep_view()[k] == dir.deep_view()[k],
        decreases dir.len() - i,
    {
        if !text_eq(path[i].as_str(), dir[i].as_str()) {
            assert(path.deep_view().take(dir.len() as int)[i as int] != dir.deep_view()[i as int]);
            return false;
        }
        i += 1;
    }
    assert(path.deep_view().take(dir.len() as int) =~= dir.deep_view());
    true
}

fn same_parts(a: &Vec<String>, b: &Vec<String>) -> (r: bool)
    ensures
        r == (a.deep_view() == b.deep_view()),
{
    if a.len() != b.len() {
        assert(a.deep_view().len() != b.deep_view().len());
        return false;
    }
    let r = begins_with_parts(a, b);
    assert(a.deep_view().take(b.len() as int) =~= a.deep_view());
    r
}

fn is_companion(source: &str, eval: &str, suffix: &str) -> (r: bool)
    ensures
        r == (eval@ == source@ + suffix@),
{
    let mut name = owned(source);
    name.append(suffix);
    text_eq(eval, name.as_str())
}

/// Says why the outputs of a run must not be written. The paths are absolute,
/// in parts; `same_file` says that the database and the source are one file.
pub fn find_output_fault(
    source: &Vec<String>,
    eval: &Vec<String>,
    reports: &Vec<String>,
    source_text: &str,
    eval_text: &str,
    same_file: bool,
) -> (r: Option<&'static str>)
    ensures
        match r {
            Some(e) => output_fault(
                source.deep_view(),
                eval.deep_view(),
                reports.deep_view(),
                source_text@,
                eval_text@,
                same_file,
            ) == Some(e@),
            None => output_fault(
                source.deep_view(),
                eval.deep_view(),
                reports.deep_view(),
                source_text@,
                eval_text@,
                same_file,
            ) is None,
        },
{
    if same_parts(eval, source) || same_parts(reports, source) || same_parts(eval, reports)
        || begins_with_parts(eval, reports) {
        Some("source/eval/report paths must be separate")
    } else if is_companion(source_text, eval_text, "-wal") || is_companion(
        source_text,
        eval_text,
        "-shm",
    ) || is_companion(source_text, eval_text, "-journal") {
        Some("eval path aliases source SQLite companion")
    } else if same_file {
        Some("eval path hard-links source")
    } else {
        None
    }
}

/// The database of a run is never the source itself.
pub proof fn law_source_is_never_written(
    source: Seq<Seq<char>>,
    reports: Seq<Seq<char>>,
    source_text: Seq<char>,
    eval_text: Seq<char>,
    same_file: bool,
)
    ensures
        output_fault(source, source, reports, source_text, eval_text, same_file) is Some,
{
}

/// A written count is read back.
pub proof fn law_counts_read_back(n: nat)
    requires
        n <= usize::MAX,
    ensures
        count_in(decimal(n as int)) == Ok::<int, Seq<char>>(n as int),
{
    lemma_digits(n);
    let s = decimal(n as int);
    assert(s[0] != '+');
}

} // verus!
