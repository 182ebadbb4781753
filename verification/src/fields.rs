//! Key/value text: `key: value` listings such as `lscpu` output and
//! `/proc/meminfo`, and `KEY=value` listings such as sysfs `uevent` files.
use vstd::prelude::*;
use crate::text::{
    chars_of, lines, lines_spec, same, split_once, split_once_spec, string_of, trim, trim_spec, views,
};

verus! {

/// The value of `key` in a `key: value` listing when its lines are gathered
/// into a map: the last line whose text before the first `:` is exactly `key`
/// wins, and its value is the trimmed text after that `:`.
pub open spec fn colon_field(ls: Seq<Seq<char>>, key: Seq<char>) -> Option<Seq<char>>
    decreases ls.len(),
{
    if ls.len() == 0 {
        None
    } else {
        match split_once_spec(ls.last(), ':') {
            Some((a, b)) => if a == key {
                Some(trim_spec(b))
            } else {
                colon_field(ls.drop_last(), key)
            },
            None => colon_field(ls.drop_last(), key),
        }
    }
}

/// The value of `key` in the lines `ls` of a `key: value` listing.
pub fn colon_field_of(ls: &Vec<Vec<char>>, key: &Vec<char>) -> (r: Option<Vec<char>>)
    ensures
        r matches Some(v) ==> colon_field(views(ls@), key@) == Some(v@),
        r is None ==> colon_field(views(ls@), key@) is None,
{
    let mut found: Option<Vec<char>> = None;
    let mut i: usize = 0;
    while i < ls.len()
        invariant
            i <= ls.len(),
            found matches Some(v) ==> colon_field(views(ls@).take(i as int), key@) == Some(v@),
            found is None ==> colon_field(views(ls@).take(i as int), key@) is None,
        decreases ls.len() - i,
    {
        proof {
            let t = views(ls@).take(i + 1);
            assert(t.drop_last() =~= views(ls@).take(i as int));
            assert(t.last() == ls@[i as int]@);
        }
        match split_once(&ls[i], ':') {
            Some((a, b)) => {
                if same(&a, key) {
                    found = Some(trim(&b));
                }
            },
            None => {},
        }
        i += 1;
    }
    proof {
        assert(views(ls@).take(i as int) =~= views(ls@));
    }
    found
}

/// A line whose key (the text before its first `:`) is not `key` does not
/// change what `key` reads as.
pub proof fn other_keys_ignored(ls: Seq<Seq<char>>, l: Seq<char>, key: Seq<char>)
    requires
        split_once_spec(l, ':') matches Some((a, _)) && a != key,
    ensures
        colon_field(ls.push(l), key) == colon_field(ls, key),
{
    assert(ls.push(l).drop_last() =~= ls);
}

/// A line without a `:` does not change what any key reads as.
pub proof fn lines_without_colon_ignored(ls: Seq<Seq<char>>, l: Seq<char>, key: Seq<char>)
    requires
        split_once_spec(l, ':') is None,
    ensures
        colon_field(ls.push(l), key) == colon_field(ls, key),
{
    assert(ls.push(l).drop_last() =~= ls);
}

/// A later line with exactly the key wins: `key` then reads as its trimmed
/// value.
pub proof fn last_line_wins(ls: Seq<Seq<char>>, l: Seq<char>, key: Seq<char>, b: Seq<char>)
    requires
        split_once_spec(l, ':') == Some((key, b)),
    ensures
        colon_field(ls.push(l), key) == Some(trim_spec(b)),
{
    assert(ls.push(l).drop_last() =~= ls);
}

/// Line `l` has exactly the key `key`, with trimmed value `v`.
pub open spec fn keyed_line(l: Seq<char>, key: Seq<char>, v: Seq<char>) -> bool {
    match split_once_spec(l, ':') {
        Some((a, b)) => a == key && trim_spec(b) == v,
        None => false,
    }
}

/// A value found for `key` is the trimmed value of some line whose key is
/// exactly `key`.
pub proof fn found_value_has_its_line(ls: Seq<Seq<char>>, key: Seq<char>)
    ensures
        colon_field(ls, key) matches Some(v) ==> exists|i: int|
            0 <= i < ls.len() && #[trigger] keyed_line(ls[i], key, v),
    decreases ls.len(),
{
    if ls.len() > 0 {
        found_value_has_its_line(ls.drop_last(), key);
        if colon_field(ls, key) is Some {
            let v = colon_field(ls, key)->0;
            if keyed_line(ls.last(), key, v) {
                assert(keyed_line(ls[ls.len() - 1], key, v));
            } else {
                assert(colon_field(ls.drop_last(), key) == Some(v));
                let i = choose|i: int|
                    0 <= i < ls.drop_last().len() && #[trigger] keyed_line(ls.drop_last()[i], key, v);
                assert(ls.drop_last()[i] == ls[i]);
            }
        }
    }
}

/// The value of `key` in a `key: value` text, as a map built from its lines
/// holds it.
pub fn colon_value(text: &str, key: &str) -> (r: Option<String>)
    ensures
        r matches Some(v) ==> colon_field(lines_spec(text@), key@) == Some(v@),
        r is None ==> colon_field(lines_spec(text@), key@) is None,
{
    let ls = lines(&chars_of(text));
    match colon_field_of(&ls, &chars_of(key)) {
        Some(v) => Some(string_of(&v)),
        None => None,
    }
}

/// The value of `key` in a `KEY=value` listing: the text after the first `=`
/// of the first line whose text before that `=` is exactly `key`.
pub open spec fn eq_field(ls: Seq<Seq<char>>, key: Seq<char>) -> Option<Seq<char>>
    decreases ls.len(),
{
    if ls.len() == 0 {
        None
    } else {
        match split_once_spec(ls[0], '=') {
            Some((a, b)) => if a == key {
                Some(b)
            } else {
                eq_field(ls.drop_first(), key)
            },
            None => eq_field(ls.drop_first(), key),
        }
    }
}

/// The value of `key` in a `KEY=value` text such as a sysfs `uevent` file.
pub fn eq_value(text: &str, key: &str) -> (r: Option<String>)
    ensures
        r matches Some(v) ==> eq_field(lines_spec(text@), key@) == Some(v@),
        r is None ==> eq_field(lines_spec(text@), key@) is None,
{
    let ls = lines(&chars_of(text));
    let k = chars_of(key);
    let ghost all = views(ls@);
    let mut i: usize = 0;
    proof {
        assert(all.skip(0) =~= all);
    }
    while i < ls.len()
        invariant
            i <= ls.len(),
            all == views(ls@),
            all == lines_spec(text@),
            k@ == key@,
            eq_field(all.skip(i as int), k@) == eq_field(all, k@),
        decreases ls.len() - i,
    {
        proof {
            let t = all.skip(i as int);
            assert(t.drop_first() =~= all.skip(i + 1));
            assert(t[0] == ls@[i as int]@);
        }
        match split_once(&ls[i], '=') {
            Some((a, b)) => {
                if same(&a, &k) {
                    return Some(string_of(&b));
                }
            },
            None => {},
        }
        i += 1;
    }
    proof {
        assert(all.skip(i as int) =~= Seq::<Seq<char>>::empty());
    }
    None
}

} // verus!
