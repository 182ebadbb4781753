//! Temperature sensors under `/sys/class/hwmon`: which files are sensor
//! inputs, where their labels are, and which sensor the CPU monitor reads.
use vstd::prelude::*;
use crate::text::{
    chars_of, contains, decimal, decimal_spec, decimal_string, digits_in, digits_value,
    has_prefix, has_substring, has_suffix, leading_digits, leading_digits_from, number_of_digits,
    only_digits, starts_with, ends_with,
};

verus! {

/// A sensor input file: its name starts with `temp` and ends with `input`.
pub fn is_temp_input(name: &str) -> (b: bool)
    ensures
        b == (starts_with(name@, "temp"@) && ends_with(name@, "input"@)),
{
    let n = chars_of(name);
    has_prefix(&n, &chars_of("temp")) && has_suffix(&n, &chars_of("input"))
}

/// The bytes after the first four, each read as the character of that
/// number (so only ASCII digits read as digits).
pub open spec fn after_prefix(name: Seq<u8>) -> Seq<char> {
    if name.len() >= 4 {
        name.skip(4).map_values(|b: u8| b as char)
    } else {
        seq![]
    }
}

/// The sensor number in the bytes of an input file name such as
/// `temp3_input`: the run of digits after the first four bytes (the `temp`).
/// `None` when it exceeds `u64::MAX`.
pub fn input_index(name: &[u8]) -> (r: Option<u64>)
    ensures
        r matches Some(v) ==> v == digits_value(leading_digits(after_prefix(name@))),
        r is None ==> digits_value(leading_digits(after_prefix(name@))) > u64::MAX,
{
    let mut cs: Vec<char> = Vec::new();
    let mut i: usize = 4;
    while i < name.len()
        invariant
            4 <= i,
            name@.len() >= 4 ==> i <= name@.len(),
            name@.len() >= 4 ==> cs@ == name@.subrange(4, i as int).map_values(|b: u8| b as char),
            name@.len() < 4 ==> cs@.len() == 0,
        decreases name.len() - i,
    {
        cs.push(name[i] as char);
        i += 1;
        proof {
            assert(cs@ =~= name@.subrange(4, i as int).map_values(|b: u8| b as char));
        }
    }
    proof {
        if name@.len() >= 4 {
            assert(cs@ =~= after_prefix(name@));
        } else {
            assert(cs@ =~= after_prefix(name@));
        }
        assert(cs@.skip(0) =~= cs@);
    }
    let d = leading_digits_from(&cs, 0);
    proof {
        lemma_leading_all_digits(cs@);
    }
    number_of_digits(&d)
}

proof fn lemma_leading_all_digits(s: Seq<char>)
    ensures
        crate::text::all_digits(leading_digits(s)),
    decreases s.len(),
{
    if s.len() > 0 && crate::text::is_digit(s[0]) {
        lemma_leading_all_digits(s.drop_first());
        let l = leading_digits(s);
        assert(forall|i: int| 0 < i < l.len() ==> l[i] == leading_digits(s.drop_first())[i - 1]);
    }
}

/// The number formed by every digit of an input file name, as the `coretemp`
/// monitor reads it. `None` when it exceeds `u64::MAX`.
pub fn name_digits(name: &str) -> (r: Option<u64>)
    ensures
        r matches Some(v) ==> v == digits_value(only_digits(name@)),
        r is None ==> digits_value(only_digits(name@)) > u64::MAX,
{
    digits_in(&chars_of(name))
}

/// The label file of sensor `index`: `temp<index>_label`.
pub fn label_file(index: u64) -> (s: String)
    ensures
        s@ == "temp"@ + decimal_spec(index as nat) + "_label"@,
{
    let mut s = String::from_str("temp");
    s.append(decimal_string(index).as_str());
    s.append("_label");
    s
}

/// A hwmon device of Intel core temperatures: its `name` file starts with
/// `coretemp`.
pub fn is_coretemp(name: &str) -> (b: bool)
    ensures
        b == starts_with(name@, "coretemp"@),
{
    has_prefix(&chars_of(name), &chars_of("coretemp"))
}

/// Whether the `coretemp` monitor reads a sensor with this label: the
/// watched core's number occurs in it, or, with no single core watched,
/// `Package` does.
pub fn label_wanted(label: &str, core: Option<u64>) -> (b: bool)
    ensures
        b == match core {
            Some(c) => contains(label@, decimal_spec(c as nat)),
            None => contains(label@, "Package"@),
        },
{
    let l = chars_of(label);
    match core {
        Some(c) => has_substring(&l, &decimal(c)),
        None => has_substring(&l, &chars_of("Package")),
    }
}

/// `i` is the first label that contains `p`.
pub open spec fn is_first_with(labels: Seq<Seq<char>>, p: Seq<char>, i: int) -> bool {
    &&& 0 <= i < labels.len()
    &&& contains(labels[i], p)
    &&& forall|j: int| 0 <= j < i ==> !contains(#[trigger] labels[j], p)
}

/// The first label that contains `p`, if any.
pub open spec fn first_with(labels: Seq<Seq<char>>, p: Seq<char>) -> Option<int> {
    if exists|i: int| is_first_with(labels, p, i) {
        Some(choose|i: int| is_first_with(labels, p, i))
    } else {
        None
    }
}

pub open spec fn label_views(labels: Seq<String>) -> Seq<Seq<char>> {
    labels.map_values(|l: String| l@)
}

fn find_label(labels: &Vec<String>, p: &Vec<char>) -> (r: Option<usize>)
    ensures
        r matches Some(i) ==> first_with(label_views(labels@), p@) == Some(i as int),
        r is None ==> first_with(label_views(labels@), p@) is None,
{
    let ghost ls = label_views(labels@);
    let mut i: usize = 0;
    while i < labels.len()
        invariant
            i <= labels.len(),
            ls == label_views(labels@),
            forall|j: int| 0 <= j < i ==> !contains(#[trigger] ls[j], p@),
        decreases labels.len() - i,
    {
        if has_substring(&chars_of(labels[i].as_str()), p) {
            proof {
                assert(is_first_with(ls, p@, i as int));
                let k = choose|k: int| is_first_with(ls, p@, k);
                assert(k == i) by {
                    if k < i {
                        assert(!contains(ls[k], p@));
                    } else if i < k {
                        assert(!contains(ls[i as int], p@));
                    }
                }
            }
            return Some(i);
        }
        i += 1;
    }
    None
}

/// Why no temperature sensor was found for the CPU.
#[derive(Clone, Copy, Debug, PartialEq, Eq, Structural)]
pub enum SensorError {
    /// An Intel package sensor exists but none for the watched core.
    NoIntel,
    /// Neither an Intel package sensor nor an AMD `Tccd` sensor exists.
    NoAmd,
}

/// The sensor the `cpu` monitor reads, among sensors with these labels: with
/// an Intel `Package` sensor present, the first whose label holds the watched
/// core's number, or that package sensor when all cores are watched; without
/// one, the first AMD `Tccd` sensor.
pub open spec fn select_spec(labels: Seq<Seq<char>>, core: Option<u64>) -> Result<int, SensorError> {
    match first_with(labels, "Package"@) {
        Some(x) => match core {
            Some(c) => match first_with(labels, decimal_spec(c as nat)) {
                Some(i) => Ok(i),
                None => Err(SensorError::NoIntel),
            },
            None => Ok(x),
        },
        None => match first_with(labels, "Tccd"@) {
            Some(i) => Ok(i),
            None => Err(SensorError::NoAmd),
        },
    }
}

/// Picks the CPU temperature sensor among sensors with these labels.
pub fn select_sensor(labels: &Vec<String>, core: Option<u64>) -> (r: Result<usize, SensorError>)
    ensures
        match r {
            Ok(i) => select_spec(label_views(labels@), core) == Ok::<int, SensorError>(i as int),
            Err(e) => select_spec(label_views(labels@), core) == Err::<int, SensorError>(e),
        },
{
    match find_label(labels, &chars_of("Package")) {
        Some(x) => match core {
            Some(c) => match find_label(labels, &decimal(c)) {
                Some(i) => Ok(i),
                None => Err(SensorError::NoIntel),
            },
            None => Ok(x),
        },
        None => match find_label(labels, &chars_of("Tccd")) {
            Some(i) => Ok(i),
            None => Err(SensorError::NoAmd),
        },
    }
}

/// Some label contains `p` at index `k`, so a first such label exists.
proof fn lemma_first_with_exists(labels: Seq<Seq<char>>, p: Seq<char>, k: int)
    requires
        0 <= k < labels.len(),
        contains(labels[k], p),
    ensures
        exists|i: int| is_first_with(labels, p, i),
    decreases k,
{
    if exists|j: int| 0 <= j < k && contains(#[trigger] labels[j], p) {
        let j = choose|j: int| 0 <= j < k && contains(#[trigger] labels[j], p);
        lemma_first_with_exists(labels, p, j);
    } else {
        assert(is_first_with(labels, p, k));
    }
}

/// What `first_with` answers, in terms of which labels contain `p`.
proof fn lemma_first_with(labels: Seq<Seq<char>>, p: Seq<char>)
    ensures
        forall|i: int| first_with(labels, p) == Some(i) <==> #[trigger] is_first_with(labels, p, i),
        first_with(labels, p) is None <==> forall|j: int|
            0 <= j < labels.len() ==> !contains(#[trigger] labels[j], p),
{
    if exists|i: int| is_first_with(labels, p, i) {
        let k = choose|i: int| is_first_with(labels, p, i);
        assert forall|i: int| is_first_with(labels, p, i) implies i == k by {
            if i < k {
                assert(!contains(labels[i], p));
            } else if k < i {
                assert(!contains(labels[k], p));
            }
        }
    } else {
        assert forall|j: int| 0 <= j < labels.len() implies !contains(#[trigger] labels[j], p) by {
            if contains(labels[j], p) {
                lemma_first_with_exists(labels, p, j);
            }
        }
    }
}

/// Without an Intel `Package` sensor the watched core plays no part: the
/// choice is the first label containing `Tccd`, or `NoAmd` when none does.
pub proof fn amd_choice_ignores_core(labels: Seq<Seq<char>>, core: Option<u64>)
    requires
        forall|j: int| 0 <= j < labels.len() ==> !contains(#[trigger] labels[j], "Package"@),
    ensures
        select_spec(labels, core) == select_spec(labels, None),
        forall|i: int|
            select_spec(labels, core) == Ok::<int, SensorError>(i) <==> #[trigger] is_first_with(
                labels,
                "Tccd"@,
                i,
            ),
        select_spec(labels, core) == Err::<int, SensorError>(SensorError::NoAmd) <==> forall|j: int|
            0 <= j < labels.len() ==> !contains(#[trigger] labels[j], "Tccd"@),
        select_spec(labels, core) != Err::<int, SensorError>(SensorError::NoIntel),
{
    lemma_first_with(labels, "Package"@);
    lemma_first_with(labels, "Tccd"@);
}

/// With an Intel `Package` sensor: watching all cores picks the first
/// `Package` label; watching core `c` picks the first label holding `c`'s
/// number, or gives `NoIntel` when none does.
pub proof fn intel_choice(labels: Seq<Seq<char>>, core: Option<u64>)
    requires
        exists|j: int| 0 <= j < labels.len() && contains(#[trigger] labels[j], "Package"@),
    ensures
        core is None ==> forall|i: int|
            select_spec(labels, core) == Ok::<int, SensorError>(i) <==> #[trigger] is_first_with(
                labels,
                "Package"@,
                i,
            ),
        core matches Some(c) ==> forall|i: int|
            select_spec(labels, core) == Ok::<int, SensorError>(i) <==> #[trigger] is_first_with(
                labels,
                decimal_spec(c as nat),
                i,
            ),
        core matches Some(c) ==> (select_spec(labels, core) == Err::<int, SensorError>(
            SensorError::NoIntel,
        ) <==> forall|j: int|
            0 <= j < labels.len() ==> !contains(#[trigger] labels[j], decimal_spec(c as nat))),
        select_spec(labels, core) != Err::<int, SensorError>(SensorError::NoAmd),
{
    lemma_first_with(labels, "Package"@);
    if let Some(c) = core {
        lemma_first_with(labels, decimal_spec(c as nat));
    }
}

} // verus!
