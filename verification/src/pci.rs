//! Naming a PCI device: its id from a sysfs `uevent` file, its name from the
//! `pci.ids` database.
use vstd::prelude::*;
use crate::text::{
    is_first, lemma_first_index_some, chars_of, copy_range, has_prefix, lines, lines_spec, lowercase, split_once, split_once_spec,
    starts_with, string_of, to_lowercase, trim, trim_spec, views,
};

verus! {

/// Why a `uevent` file gives no PCI id.
#[derive(Clone, Copy, Debug, PartialEq, Eq, Structural)]
pub enum PciIdError {
    /// No line starts with `PCI_ID`.
    NoPciLine,
    /// The `PCI_ID` line has no `=`.
    NoEquals,
    /// The value of the `PCI_ID` line has no `:`.
    NoColon,
}

/// `i` is the first line that starts with `p`.
pub open spec fn is_first_starting(ls: Seq<Seq<char>>, p: Seq<char>, i: int) -> bool {
    &&& 0 <= i < ls.len()
    &&& starts_with(ls[i], p)
    &&& forall|j: int| 0 <= j < i ==> !starts_with(#[trigger] ls[j], p)
}

pub open spec fn first_starting(ls: Seq<Seq<char>>, p: Seq<char>) -> Option<int> {
    if exists|i: int| is_first_starting(ls, p, i) {
        Some(choose|i: int| is_first_starting(ls, p, i))
    } else {
        None
    }
}

/// The device id of a `uevent` text, lower-cased: the first `PCI_ID` line,
/// its value after the first `=`, and of that the part after the first `:`
/// (the vendor id and the colon dropped).
pub open spec fn pci_id_spec(uevent: Seq<char>) -> Result<Seq<char>, PciIdError> {
    let ls = lines_spec(uevent);
    match first_starting(ls, "PCI_ID"@) {
        None => Err(PciIdError::NoPciLine),
        Some(i) => match split_once_spec(ls[i], '=') {
            None => Err(PciIdError::NoEquals),
            Some((_, v)) => match split_once_spec(v, ':') {
                None => Err(PciIdError::NoColon),
                Some((_, d)) => Ok(lowercase(d)),
            },
        },
    }
}

fn find_starting(ls: &Vec<Vec<char>>, p: &Vec<char>) -> (r: Option<usize>)
    ensures
        r matches Some(i) ==> i < ls.len() && first_starting(views(ls@), p@) == Some(i as int),
        r is None ==> first_starting(views(ls@), p@) is None,
{
    let ghost vs = views(ls@);
    let mut i: usize = 0;
    while i < ls.len()
        invariant
            i <= ls.len(),
            vs == views(ls@),
            forall|j: int| 0 <= j < i ==> !starts_with(#[trigger] vs[j], p@),
        decreases ls.len() - i,
    {
        if has_prefix(&ls[i], p) {
            proof {
                assert(is_first_starting(vs, p@, i as int));
                let k = choose|k: int| is_first_starting(vs, p@, k);
                assert(k == i) by {
                    if k < i {
                        assert(!starts_with(vs[k], p@));
                    } else if i < k {
                        assert(!starts_with(vs[i as int], p@));
                    }
                }
            }
            return Some(i);
        }
        i += 1;
    }
    None
}

proof fn lemma_first_starting(ls: Seq<Seq<char>>, p: Seq<char>, i: int)
    requires
        is_first_starting(ls, p, i),
    ensures
        first_starting(ls, p) == Some(i),
{
    let k = choose|k: int| is_first_starting(ls, p, k);
    assert(k == i) by {
        if k < i {
            assert(!starts_with(ls[k], p));
        } else if i < k {
            assert(!starts_with(ls[i], p));
        }
    }
}

/// The id comes from the first line that starts with `PCI_ID`: when that
/// line reads `PCI_ID=V:D` with no `:` in `V`, the id is `D` lower-cased,
/// whatever other lines say.
pub proof fn id_from_first_pci_line(u: Seq<char>, i: int, v: Seq<char>, d: Seq<char>)
    requires
        is_first_starting(lines_spec(u), "PCI_ID"@, i),
        lines_spec(u)[i] == "PCI_ID="@ + v + ":"@ + d,
        !v.contains(':'),
    ensures
        pci_id_spec(u) == Ok::<Seq<char>, PciIdError>(lowercase(d)),
{
    reveal_strlit("PCI_ID=");
    reveal_strlit(":");
    let ls = lines_spec(u);
    lemma_first_starting(ls, "PCI_ID"@, i);
    let l = ls[i];
    assert(l[6] == '=');
    assert(is_first(l, '=', 6));
    lemma_first_index_some(l, '=', 6);
    let rest = l.skip(7);
    assert(rest =~= v + ":"@ + d);
    assert(rest[v.len() as int] == ':');
    assert forall|j: int| 0 <= j < v.len() implies rest[j] != ':' by {
        assert(rest[j] == v[j]);
    }
    assert(is_first(rest, ':', v.len() as int));
    lemma_first_index_some(rest, ':', v.len() as int);
    assert(rest.skip(v.len() + 1int) =~= d);
}

/// Lines after the first `PCI_ID` line do not matter: two texts that agree
/// up to and including it give the same answer.
pub proof fn later_lines_ignored(u1: Seq<char>, u2: Seq<char>, i: int)
    requires
        is_first_starting(lines_spec(u1), "PCI_ID"@, i),
        i < lines_spec(u2).len(),
        lines_spec(u1).take(i + 1) == lines_spec(u2).take(i + 1),
    ensures
        pci_id_spec(u1) == pci_id_spec(u2),
{
    let l1 = lines_spec(u1);
    let l2 = lines_spec(u2);
    assert forall|j: int| 0 <= j <= i implies l1[j] == l2[j] by {
        assert(l1.take(i + 1)[j] == l2.take(i + 1)[j]);
    }
    assert(is_first_starting(l2, "PCI_ID"@, i));
    lemma_first_starting(l1, "PCI_ID"@, i);
    lemma_first_starting(l2, "PCI_ID"@, i);
}

/// The `NoPciLine` error comes exactly when no line starts with `PCI_ID`.
pub proof fn no_pci_line(u: Seq<char>)
    ensures
        pci_id_spec(u) == Err::<Seq<char>, PciIdError>(PciIdError::NoPciLine) <==> forall|j: int|
            0 <= j < lines_spec(u).len() ==> !starts_with(#[trigger] lines_spec(u)[j], "PCI_ID"@),
{
    let ls = lines_spec(u);
    if exists|j: int| 0 <= j < ls.len() && starts_with(#[trigger] ls[j], "PCI_ID"@) {
        let j = choose|j: int| 0 <= j < ls.len() && starts_with(#[trigger] ls[j], "PCI_ID"@);
        lemma_exists_first_starting(ls, "PCI_ID"@, j);
    }
}

proof fn lemma_exists_first_starting(ls: Seq<Seq<char>>, p: Seq<char>, k: int)
    requires
        0 <= k < ls.len(),
        starts_with(ls[k], p),
    ensures
        exists|i: int| is_first_starting(ls, p, i),
    decreases k,
{
    if exists|j: int| 0 <= j < k && starts_with(#[trigger] ls[j], p) {
        let j = choose|j: int| 0 <= j < k && starts_with(#[trigger] ls[j], p);
        lemma_exists_first_starting(ls, p, j);
    } else {
        assert(is_first_starting(ls, p, k));
    }
}

/// Reads the lower-cased PCI device id from a `uevent` text.
pub fn pci_device_id(uevent: &str) -> (r: Result<String, PciIdError>)
    ensures
        match r {
            Ok(s) => pci_id_spec(uevent@) == Ok::<Seq<char>, PciIdError>(s@),
            Err(e) => pci_id_spec(uevent@) == Err::<Seq<char>, PciIdError>(e),
        },
{
    let ls = lines(&chars_of(uevent));
    let i = match find_starting(&ls, &chars_of("PCI_ID")) {
        Some(i) => i,
        None => return Err(PciIdError::NoPciLine),
    };
    proof {
        assert(views(ls@)[i as int] == ls@[i as int]@);
    }
    let v = match split_once(&ls[i], '=') {
        Some((_, v)) => v,
        None => return Err(PciIdError::NoEquals),
    };
    match split_once(&v, ':') {
        Some((_, d)) => Ok(to_lowercase(string_of(&d).as_str())),
        None => Err(PciIdError::NoColon),
    }
}

/// A device line of `pci.ids` for `id`: a tab, then text that starts with
/// the id.
pub open spec fn is_device_line(l: Seq<char>, id: Seq<char>) -> bool {
    l.len() > 0 && l[0] == '\t' && starts_with(l.drop_first(), id)
}

/// `i` is the first device line for `id`.
pub open spec fn is_first_device(ls: Seq<Seq<char>>, id: Seq<char>, i: int) -> bool {
    &&& 0 <= i < ls.len()
    &&& is_device_line(ls[i], id)
    &&& forall|j: int| 0 <= j < i ==> !is_device_line(#[trigger] ls[j], id)
}

/// The device name that `pci.ids` gives `id`: the rest of the first device
/// line for it, trimmed.
pub open spec fn pci_name_spec(ids: Seq<char>, id: Seq<char>) -> Option<Seq<char>> {
    let ls = lines_spec(ids);
    if exists|i: int| is_first_device(ls, id, i) {
        let i = choose|i: int| is_first_device(ls, id, i);
        Some(trim_spec(ls[i].skip(1 + id.len() as int)))
    } else {
        None
    }
}

fn device_line(l: &Vec<char>, id: &Vec<char>) -> (b: bool)
    ensures
        b == is_device_line(l@, id@),
{
    if l.len() == 0 || l[0] != '\t' {
        return false;
    }
    let rest = copy_range(l, 1, l.len());
    proof {
        assert(rest@ =~= l@.drop_first());
    }
    has_prefix(&rest, id)
}

/// Looks up the name of the device `id` in the text of `pci.ids`.
pub fn pci_device_name(ids: &str, id: &str) -> (r: Option<String>)
    ensures
        r matches Some(s) ==> pci_name_spec(ids@, id@) == Some(s@),
        r is None ==> pci_name_spec(ids@, id@) is None,
{
    let ls = lines(&chars_of(ids));
    let d = chars_of(id);
    let ghost vs = views(ls@);
    let mut i: usize = 0;
    while i < ls.len()
        invariant
            i <= ls.len(),
            vs == views(ls@),
            vs == lines_spec(ids@),
            d@ == id@,
            forall|j: int| 0 <= j < i ==> !is_device_line(#[trigger] vs[j], id@),
        decreases ls.len() - i,
    {
        if device_line(&ls[i], &d) {
            proof {
                assert(vs[i as int] == ls@[i as int]@);
                assert(is_first_device(vs, id@, i as int));
                let k = choose|k: int| is_first_device(vs, id@, k);
                assert(k == i) by {
                    if k < i {
                        assert(!is_device_line(vs[k], id@));
                    } else if i < k {
                        assert(!is_device_line(vs[i as int], id@));
                    }
                }
                assert(ls@[i as int]@.skip(1 + id@.len() as int) =~= ls@[i as int]@.subrange(
                    1 + d@.len() as int,
                    ls@[i as int]@.len() as int,
                ));
            }
            let rest = copy_range(&ls[i], 1 + d.len(), ls[i].len());
            return Some(string_of(&trim(&rest)));
        }
        proof {
            assert(vs[i as int] == ls@[i as int]@);
        }
        i += 1;
    }
    proof {
        assert forall|k: int| !is_first_device(vs, id@, k) by {
            if 0 <= k < vs.len() {
                assert(!is_device_line(vs[k], id@));
            }
        }
    }
    None
}

} // verus!
