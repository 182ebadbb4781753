//! The CPU monitor's logic: which core is watched, what `lscpu` says about
//! the processor, the per-core frequency file, and the busy share that
//! successive `/proc/stat` samples give.
use vstd::prelude::*;
use crate::fields::{colon_field, colon_field_of};
use crate::text::{
    chars_of, contains, decimal_spec, decimal_string, has_substring, lines, lines_spec,
    lowercase, parse_u64, parse_u64_spec, replace_all, replace_spec, string_of, to_lowercase,
    trim, trim_spec, views, words, words_spec,
};

verus! {

// ---------------------------------------------------------------------------
// The watched core
// ---------------------------------------------------------------------------

/// Which processors the monitor reports on: every one of a given count, or
/// a single one by number.
#[derive(Clone, Copy, Debug, PartialEq, Eq, Structural)]
pub enum ViewCore {
    All(u64),
    One(u64),
}

impl ViewCore {
    /// The selection that a command-line argument asks for: a number picks
    /// that core; no argument, or one that is not a number, means all
    /// `count` cores.
    pub fn from_arg(arg: Option<&str>, count: u64) -> (v: ViewCore)
        ensures
            v == match arg {
                Some(a) => match parse_u64_spec(a@) {
                    Some(x) => ViewCore::One(x),
                    None => ViewCore::All(count),
                },
                None => ViewCore::All(count),
            },
    {
        match arg {
            Some(a) => match parse_u64(&chars_of(a)) {
                Some(x) => ViewCore::One(x),
                None => ViewCore::All(count),
            },
            None => ViewCore::All(count),
        }
    }

    /// Whether the selection names a core that exists among `count`.
    pub fn fits(&self, count: u64) -> (b: bool)
        ensures
            b == match *self {
                ViewCore::One(x) => x < count,
                ViewCore::All(_) => true,
            },
    {
        match *self {
            ViewCore::One(x) => x < count,
            ViewCore::All(_) => true,
        }
    }

    pub open spec fn label_spec(self) -> Seq<char> {
        match self {
            ViewCore::All(x) => "..#"@ + decimal_spec(x as nat),
            ViewCore::One(x) => "#"@ + decimal_spec(x as nat),
        }
    }

    /// How the selection is shown in the status line: `..#N` for all `N`
    /// cores, `#N` for core `N`.
    pub fn label(&self) -> (s: String)
        ensures
            s@ == self.label_spec(),
    {
        match *self {
            ViewCore::All(x) => {
                let mut s = String::from_str("..#");
                s.append(decimal_string(x).as_str());
                s
            },
            ViewCore::One(x) => {
                let mut s = String::from_str("#");
                s.append(decimal_string(x).as_str());
                s
            },
        }
    }
}

/// The single core being watched, if the selection (once made) names one.
pub fn watched_core(view: Option<ViewCore>) -> (c: Option<u64>)
    ensures
        c == match view {
            Some(ViewCore::One(x)) => Some(x),
            _ => None::<u64>,
        },
{
    match view {
        Some(ViewCore::One(x)) => Some(x),
        _ => None,
    }
}

// ---------------------------------------------------------------------------
// lscpu
// ---------------------------------------------------------------------------

/// The `regex` pattern for an Intel generation tag such as `12th Gen`.
pub open spec fn gen_pattern() -> Seq<char> {
    "[0-9]+th Gen"@
}

/// The `regex` pattern for a clock suffix such as `@ 2.60GHz`.
pub open spec fn ghz_pattern() -> Seq<char> {
    "@ [0-9]+\\.[0-9]+GHz"@
}

/// `regex::Regex::new` accepts the pattern.
pub uninterp spec fn regex_compiles(pattern: Seq<char>) -> bool;

/// What `Regex::replace(haystack, "")` returns for a compiled `pattern`:
/// the haystack with its leftmost-first match taken out.
pub uninterp spec fn regex_delete_first(pattern: Seq<char>, haystack: Seq<char>) -> Seq<char>;

/// Compiles `pattern` with `regex::Regex::new` and, when that succeeds,
/// deletes the leftmost-first match in `haystack` with `Regex::replace` and
/// an empty replacement. Whether the pattern compiles and what remains are
/// named, not spelled out: the regex engine takes pages; both depend on the
/// arguments alone. The two name patterns of this module are valid regex
/// syntax (digit classes, `+`, an escaped `.`, literals), so they compile.
#[verifier::external_body]
fn delete_first_match(pattern: &str, haystack: &str) -> (r: Option<String>)
    ensures
        r is Some <==> regex_compiles(pattern@),
        pattern@ == gen_pattern() || pattern@ == ghz_pattern() ==> r is Some,
        r matches Some(s) ==> s@ == regex_delete_first(pattern@, haystack@),
{
    match regex::Regex::new(pattern) {
        Ok(re) => Some(re.replace(haystack, "").into_owned()),
        Err(_) => None,
    }
}

/// Brand marks removed from an Intel model name.
pub open spec fn strip_intel_marks(n: Seq<char>) -> Seq<char> {
    replace_spec(
        replace_spec(
            replace_spec(replace_spec(n, "Core"@, ""@), "(TM)"@, ""@),
            "Intel"@,
            ""@,
        ),
        "(R)"@,
        ""@,
    )
}

/// Double spaces halved, the ends trimmed, and double spaces halved again.
pub open spec fn squeeze_spaces(n: Seq<char>) -> Seq<char> {
    replace_spec(trim_spec(replace_spec(n, "  "@, " "@)), "  "@, " "@)
}

/// A non-Intel model name shortened: `AMD Ryzen` becomes `Ryzen`,
/// `Processor` goes, and the ends are trimmed.
pub open spec fn amd_model_name(n: Seq<char>) -> Seq<char> {
    trim_spec(replace_spec(replace_spec(n, "AMD Ryzen"@, "Ryzen"@), "Processor"@, ""@))
}

/// The short processor name the `cpu` monitor shows: for an Intel part the
/// brand marks, the generation tag and the clock suffix go and the rest is
/// lower-cased; any other part is shortened by `amd_model_name`.
pub open spec fn short_model_name(n: Seq<char>) -> Seq<char> {
    if contains(n, "Intel"@) {
        lowercase(
            regex_delete_first(
                ghz_pattern(),
                squeeze_spaces(regex_delete_first(gen_pattern(), strip_intel_marks(n))),
            ),
        )
    } else {
        amd_model_name(n)
    }
}

/// The short processor name the `coretemp` monitor shows: brand marks, clock
/// suffix and generation tag removed from any model name, spaces squeezed,
/// lower-cased.
pub open spec fn plain_model_name(n: Seq<char>) -> Seq<char> {
    lowercase(
        squeeze_spaces(
            regex_delete_first(gen_pattern(), regex_delete_first(ghz_pattern(), strip_intel_marks(n))),
        ),
    )
}

fn replace_lit(s: &Vec<char>, p: &str, r: &str) -> (out: Vec<char>)
    requires
        p@.len() > 0,
    ensures
        out@ == replace_spec(s@, p@, r@),
{
    replace_all(s, &chars_of(p), &chars_of(r))
}

/// Removes the brand marks `Core`, `(TM)`, `Intel` and `(R)`, in that order.
pub fn strip_marks(n: &Vec<char>) -> (r: Vec<char>)
    ensures
        r@ == strip_intel_marks(n@),
{
    proof {
        reveal_strlit("Core");
        reveal_strlit("(TM)");
        reveal_strlit("Intel");
        reveal_strlit("(R)");
    }
    let a = replace_lit(n, "Core", "");
    let b = replace_lit(&a, "(TM)", "");
    let c = replace_lit(&b, "Intel", "");
    replace_lit(&c, "(R)", "")
}

/// Squeezes the spaces of a name that a regex deletion has left: double
/// spaces halved, the ends trimmed, double spaces halved again.
pub fn squeeze(n: &Vec<char>) -> (r: Vec<char>)
    ensures
        r@ == squeeze_spaces(n@),
{
    proof {
        reveal_strlit("  ");
    }
    let a = replace_lit(n, "  ", " ");
    let b = trim(&a);
    replace_lit(&b, "  ", " ")
}

/// Shortens a non-Intel model name.
pub fn amd_name(n: &Vec<char>) -> (r: String)
    ensures
        r@ == amd_model_name(n@),
{
    proof {
        reveal_strlit("AMD Ryzen");
        reveal_strlit("Processor");
    }
    let a = replace_lit(n, "AMD Ryzen", "Ryzen");
    let b = replace_lit(&a, "Processor", "");
    string_of(&trim(&b))
}

fn delete_match(pattern: &str, n: &Vec<char>) -> (r: Vec<char>)
    requires
        pattern@ == gen_pattern() || pattern@ == ghz_pattern(),
    ensures
        r@ == regex_delete_first(pattern@, n@),
{
    let s = string_of(n);
    match delete_first_match(pattern, s.as_str()) {
        Some(t) => chars_of(t.as_str()),
        None => {
            proof {
                assert(false);
            }
            Vec::new()
        },
    }
}

/// The short processor name the `cpu` monitor shows for a model name.
pub fn short_name(n: &Vec<char>) -> (r: String)
    ensures
        r@ == short_model_name(n@),
{
    if has_substring(n, &chars_of("Intel")) {
        let a = strip_marks(n);
        let b = delete_match("[0-9]+th Gen", &a);
        let c = squeeze(&b);
        let d = delete_match("@ [0-9]+\\.[0-9]+GHz", &c);
        to_lowercase(string_of(&d).as_str())
    } else {
        amd_name(n)
    }
}

/// The short processor name the `coretemp` monitor shows.
pub fn plain_name(n: &Vec<char>) -> (r: String)
    ensures
        r@ == plain_model_name(n@),
{
    let a = strip_marks(n);
    let b = delete_match("@ [0-9]+\\.[0-9]+GHz", &a);
    let c = delete_match("[0-9]+th Gen", &b);
    to_lowercase(string_of(&squeeze(&c)).as_str())
}

/// Why `lscpu` output cannot describe the processor.
#[derive(Clone, Copy, Debug, PartialEq, Eq, Structural)]
pub enum LscpuError {
    /// No `Model name` line.
    MissingModelName,
    /// No `CPU max MHz` line.
    MissingMaxMhz,
}

/// Why the processor count is not known.
#[derive(Clone, Copy, Debug, PartialEq, Eq, Structural)]
pub enum CountError {
    /// No `CPU(s)` line.
    Missing,
    /// The `CPU(s)` value is not an unsigned number.
    Invalid,
}

/// What `lscpu` says about the processor, as plain values: the short name,
/// the maximum clock text (in MHz, parsed by the caller), and the count.
pub struct CpuFields {
    pub name: String,
    pub max_mhz: String,
    pub count: Result<u64, CountError>,
}

pub open spec fn count_spec(ls: Seq<Seq<char>>) -> Result<u64, CountError> {
    match colon_field(ls, "CPU(s)"@) {
        None => Err(CountError::Missing),
        Some(c) => match parse_u64_spec(c) {
            Some(v) => Ok(v),
            None => Err(CountError::Invalid),
        },
    }
}

/// The fields read from `lscpu` output, with the name shortened by the
/// `cpu` monitor's rule (`plain == false`) or the `coretemp` monitor's rule.
pub open spec fn lscpu_spec(text: Seq<char>, plain: bool) -> Result<
    (Seq<char>, Seq<char>, Result<u64, CountError>),
    LscpuError,
> {
    let ls = lines_spec(text);
    match colon_field(ls, "Model name"@) {
        None => Err(LscpuError::MissingModelName),
        Some(n) => match colon_field(ls, "CPU max MHz"@) {
            None => Err(LscpuError::MissingMaxMhz),
            Some(m) => Ok(
                (
                    if plain {
                        plain_model_name(n)
                    } else {
                        short_model_name(n)
                    },
                    m,
                    count_spec(ls),
                ),
            ),
        },
    }
}

pub open spec fn fields_view(r: Result<CpuFields, LscpuError>) -> Result<
    (Seq<char>, Seq<char>, Result<u64, CountError>),
    LscpuError,
> {
    match r {
        Ok(f) => Ok((f.name@, f.max_mhz@, f.count)),
        Err(e) => Err(e),
    }
}

impl CpuFields {
    fn read_with(text: &str, plain: bool) -> (r: Result<CpuFields, LscpuError>)
        ensures
            fields_view(r) == lscpu_spec(text@, plain),
    {
        let ls = lines(&chars_of(text));
        let n = match colon_field_of(&ls, &chars_of("Model name")) {
            Some(n) => n,
            None => return Err(LscpuError::MissingModelName),
        };
        let name = if plain {
            plain_name(&n)
        } else {
            short_name(&n)
        };
        let m = match colon_field_of(&ls, &chars_of("CPU max MHz")) {
            Some(m) => m,
            None => return Err(LscpuError::MissingMaxMhz),
        };
        let count = match colon_field_of(&ls, &chars_of("CPU(s)")) {
            None => Err(CountError::Missing),
            Some(c) => match parse_u64(&c) {
                Some(v) => Ok(v),
                None => Err(CountError::Invalid),
            },
        };
        Ok(CpuFields { name, max_mhz: string_of(&m), count })
    }

    /// Reads `lscpu` output the way the `cpu` monitor does.
    pub fn read_lscpu(text: &str) -> (r: Result<CpuFields, LscpuError>)
        ensures
            fields_view(r) == lscpu_spec(text@, false),
    {
        CpuFields::read_with(text, false)
    }

    /// Reads `lscpu` output the way the `coretemp` monitor does.
    pub fn read_lscpu_plain(text: &str) -> (r: Result<CpuFields, LscpuError>)
        ensures
            fields_view(r) == lscpu_spec(text@, true),
    {
        CpuFields::read_with(text, true)
    }
}

// ---------------------------------------------------------------------------
// Clock frequency
// ---------------------------------------------------------------------------

/// The sysfs file that holds the current clock of `core`, in kHz.
pub fn frequency_path(core: u64) -> (p: String)
    ensures
        p@ == "/sys/devices/system/cpu/cpu"@ + decimal_spec(core as nat)
            + "/cpufreq/scaling_cur_freq"@,
{
    let mut p = String::from_str("/sys/devices/system/cpu/cpu");
    p.append(decimal_string(core).as_str());
    p.append("/cpufreq/scaling_cur_freq");
    p
}

/// The clock in kHz that a `scaling_cur_freq` file holds: its text with every
/// newline removed, read as an unsigned number.
pub open spec fn frequency_spec(text: Seq<char>) -> Option<u64> {
    parse_u64_spec(replace_spec(text, "\n"@, ""@))
}

/// Reads the clock in kHz from the text of a `scaling_cur_freq` file.
pub fn parse_frequency_khz(text: &str) -> (r: Option<u64>)
    ensures
        r == frequency_spec(text@),
{
    proof {
        reveal_strlit("\n");
    }
    parse_u64(&replace_lit(&chars_of(text), "\n", ""))
}

// ---------------------------------------------------------------------------
// /proc/stat
// ---------------------------------------------------------------------------

/// Why a `/proc/stat` text gives no sample.
#[derive(Clone, Copy, Debug, PartialEq, Eq, Structural)]
pub enum StatError {
    /// The line for the watched processor is missing.
    NoLine,
    /// The line has fewer than seven counters after its label, or one of the
    /// first seven is not an unsigned number.
    Fields,
}

/// The line of `/proc/stat` that describes the watched processor: line 0 sums
/// all processors, line `c + 1` is core `c`.
pub open spec fn stat_line(core: Option<u64>) -> int {
    match core {
        Some(c) => c + 1,
        None => 0,
    }
}

/// The words after the first one.
pub open spec fn after_label(ws: Seq<Seq<char>>) -> Seq<Seq<char>> {
    if ws.len() > 0 {
        ws.drop_first()
    } else {
        ws
    }
}

/// The seven counters (user, nice, system, idle, iowait, irq, softirq) of the
/// watched processor's line.
pub open spec fn cpu_times_spec(stat: Seq<char>, core: Option<u64>) -> Result<Seq<u64>, StatError> {
    let ls = lines_spec(stat);
    let i = stat_line(core);
    if i >= ls.len() {
        Err(StatError::NoLine)
    } else {
        let ws = after_label(words_spec(ls[i]));
        if ws.len() >= 7 && forall|k: int| 0 <= k < 7 ==> parse_u64_spec(#[trigger] ws[k]) is Some {
            Ok(Seq::new(7, |k: int| parse_u64_spec(ws[k])->0))
        } else {
            Err(StatError::Fields)
        }
    }
}

/// Reads the seven counters of the watched processor from `/proc/stat`.
pub fn cpu_times(stat: &str, core: Option<u64>) -> (r: Result<[u64; 7], StatError>)
    requires
        core matches Some(c) ==> c < u64::MAX,
    ensures
        match r {
            Ok(a) => cpu_times_spec(stat@, core) == Ok::<Seq<u64>, StatError>(a@),
            Err(e) => cpu_times_spec(stat@, core) == Err::<Seq<u64>, StatError>(e),
        },
{
    let ls = lines(&chars_of(stat));
    let idx: u64 = match core {
        Some(c) => c + 1,
        None => 0,
    };
    if idx >= ls.len() as u64 {
        return Err(StatError::NoLine);
    }
    let line = &ls[idx as usize];
    proof {
        assert(views(ls@)[idx as int] == line@);
    }
    let ws = words(line);
    if ws.len() < 8 {
        return Err(StatError::Fields);
    }
    let ghost rest = after_label(views(ws@));
    proof {
        assert(rest == after_label(words_spec(lines_spec(stat@)[stat_line(core)])));
    }
    let mut out: [u64; 7] = [0; 7];
    let mut k: usize = 0;
    while k < 7
        invariant
            k <= 7,
            ws.len() >= 8,
            rest == views(ws@).drop_first(),
            rest == after_label(words_spec(lines_spec(stat@)[stat_line(core)])),
            stat_line(core) < lines_spec(stat@).len(),
            forall|j: int| 0 <= j < k ==> parse_u64_spec(#[trigger] rest[j]) == Some(out@[j]),
        decreases 7 - k,
    {
        proof {
            assert(rest[k as int] == ws@[k + 1]@);
        }
        match parse_u64(&ws[k + 1]) {
            Some(v) => {
                out[k] = v;
            },
            None => {
                return Err(StatError::Fields);
            },
        }
        k += 1;
    }
    proof {
        assert(out@ =~= Seq::new(7, |j: int| parse_u64_spec(rest[j])->0));
    }
    Ok(out)
}

/// The idle time of a sample: idle plus iowait.
pub open spec fn idle_of(t: Seq<u64>) -> int {
    t[3] + t[4]
}

/// The total time of a sample: the sum of its seven counters.
pub open spec fn total_of(t: Seq<u64>) -> int {
    t[0] + t[1] + t[2] + t[3] + t[4] + t[5] + t[6]
}

/// The last idle and total times seen, so that each sample is read as the
/// time that passed since the one before.
pub struct UsageTracker {
    pub idle: u64,
    pub total: u64,
}

/// Whether a sample can follow the tracker's state: its times fit in 64 bits
/// and neither has gone backwards.
pub open spec fn sample_fits(idle: int, total: int, t: Seq<u64>) -> bool {
    &&& idle_of(t) <= u64::MAX
    &&& total_of(t) <= u64::MAX
    &&& idle_of(t) >= idle
    &&& total_of(t) >= total
}

impl UsageTracker {
    /// A tracker that has seen nothing: both times zero.
    pub fn new() -> (u: UsageTracker)
        ensures
            u.idle == 0,
            u.total == 0,
    {
        UsageTracker { idle: 0, total: 0 }
    }

    /// Takes a sample of the seven counters and gives the total and idle time
    /// that passed since the last one; remembers the sample's times. `None`
    /// (and no change) when the sample cannot follow: a sum overflows or a
    /// time went backwards.
    pub fn step(&mut self, t: [u64; 7]) -> (r: Option<(u64, u64)>)
        ensures
            r is Some <==> sample_fits(old(self).idle as int, old(self).total as int, t@),
            r matches Some(d) ==> {
                &&& final(self).idle == idle_of(t@)
                &&& final(self).total == total_of(t@)
                &&& d.0 == total_of(t@) - old(self).total
                &&& d.1 == idle_of(t@) - old(self).idle
            },
            r is None ==> *final(self) == *old(self),
            idle_of(t@) <= u64::MAX && total_of(t@) <= u64::MAX && idle_of(t@) >= old(self).idle
                && total_of(t@) >= old(self).total ==> r == Some(
                ((total_of(t@) - old(self).total) as u64, (idle_of(t@) - old(self).idle) as u64),
            ),
    {
        let idle = match t[3].checked_add(t[4]) {
            Some(v) => v,
            None => return None,
        };
        let mut total: u64 = 0;
        let mut i: usize = 0;
        while i < 7
            invariant
                i <= 7,
                total == partial_sum(t@, i as int),
            decreases 7 - i,
        {
            total = match total.checked_add(t[i]) {
                Some(v) => v,
                None => {
                    proof {
                        lemma_partial_sum_grows(t@, i + 1);
                    }
                    return None;
                },
            };
            i += 1;
        }
        proof {
            lemma_partial_sum_grows(t@, 7);
        }
        if idle < self.idle || total < self.total {
            return None;
        }
        let d = (total - self.total, idle - self.idle);
        self.idle = idle;
        self.total = total;
        Some(d)
    }
}

/// The sum of the first `i` counters.
pub open spec fn partial_sum(t: Seq<u64>, i: int) -> int
    decreases i,
{
    if i <= 0 {
        0
    } else {
        partial_sum(t, i - 1) + t[i - 1]
    }
}

proof fn lemma_partial_sum_grows(t: Seq<u64>, i: int)
    requires
        0 <= i <= 7,
        t.len() == 7,
    ensures
        partial_sum(t, i) <= partial_sum(t, 7),
        partial_sum(t, 7) == total_of(t),
    decreases 7 - i,
{
    reveal_with_fuel(partial_sum, 8);
    if i < 7 {
        lemma_partial_sum_grows(t, i + 1);
    }
}

/// A sample is taken in exactly when its sums fit in 64 bits and neither its
/// idle nor its total time is below the last sample's; in particular a
/// fully busy interval (idle time unchanged) is taken in, with no idle time.
pub proof fn samples_taken_in(idle: int, total: int, t: Seq<u64>)
    ensures
        sample_fits(idle, total, t) <==> (idle_of(t) <= u64::MAX && total_of(t) <= u64::MAX
            && idle_of(t) >= idle && total_of(t) >= total),
        idle_of(t) == idle && total_of(t) >= total && total_of(t) <= u64::MAX ==> sample_fits(
            idle,
            total,
            t,
        ),
{
}

/// Over two successive samples the time reported passes in full: the two
/// totals (and the two idle times) add up to the change since the tracker's
/// starting point.
pub proof fn usage_deltas_add_up(idle0: int, total0: int, a: Seq<u64>, b: Seq<u64>)
    requires
        a.len() == 7,
        b.len() == 7,
        sample_fits(idle0, total0, a),
        sample_fits(idle_of(a), total_of(a), b),
    ensures
        (total_of(a) - total0) + (total_of(b) - total_of(a)) == total_of(b) - total0,
        (idle_of(a) - idle0) + (idle_of(b) - idle_of(a)) == idle_of(b) - idle0,
        0 <= idle_of(b) - idle0,
        0 <= total_of(b) - total0,
{
}

} // verus!
