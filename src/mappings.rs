//! The name-to-identifier table of tiles and sprites.
//!
//! Names come from the lines of a manifest (trimmed, blank lines skipped), then
//! from the stems of the image files found under the asset tree. Each name gets
//! the next identifier, counting from 0; a name seen twice keeps the later one.
use vstd::prelude::*;
use vstd::hash_map::StringHashMap;

verus! {

/// Largest number of names the table can number: identifiers are `i16`.
pub const MAX_NAMES: usize = 32768;

/// What `str::trim` returns for a string.
pub uninterp spec fn trim_of(s: Seq<char>) -> Seq<char>;

/// Relies on `str::trim`: the result depends on the characters alone.
#[verifier::external_body]
fn trim(s: &str) -> (r: String)
    ensures
        r@ == trim_of(s@),
{
    s.trim().to_string()
}

/// The views of a vector of strings.
pub open spec fn views(v: Seq<String>) -> Seq<Seq<char>> {
    v.map_values(|s: String| s@)
}

/// The entries of `lines` that are not empty, in order.
pub open spec fn nonempty(lines: Seq<Seq<char>>) -> Seq<Seq<char>>
    decreases lines.len(),
{
    if lines.len() == 0 {
        Seq::empty()
    } else {
        let before = nonempty(lines.drop_last());
        if lines.last().len() == 0 {
            before
        } else {
            before.push(lines.last())
        }
    }
}

/// The table that numbers `names` in order: each name maps to the position of
/// its last occurrence.
pub open spec fn id_table(names: Seq<Seq<char>>) -> Map<Seq<char>, i16>
    decreases names.len(),
{
    if names.len() == 0 {
        Map::empty()
    } else {
        id_table(names.drop_last()).insert(names.last(), (names.len() - 1) as i16)
    }
}

/// The names that the table numbers: manifest lines already trimmed and
/// skipped when blank, then the image stems.
pub open spec fn names_from_trimmed(trimmed: Seq<Seq<char>>, stems: Seq<Seq<char>>) -> Seq<Seq<char>> {
    nonempty(trimmed) + stems
}

/// The names that the table numbers, from raw manifest lines and image stems.
pub open spec fn table_names(lines: Seq<Seq<char>>, stems: Seq<Seq<char>>) -> Seq<Seq<char>> {
    names_from_trimmed(lines.map_values(|l: Seq<char>| trim_of(l)), stems)
}

/// The table built from raw manifest lines and image stems.
pub open spec fn mapping_table(lines: Seq<Seq<char>>, stems: Seq<Seq<char>>) -> Map<Seq<char>, i16> {
    id_table(table_names(lines, stems))
}

/// The table holds exactly the given names; each maps to the position of its
/// last occurrence.
pub proof fn lemma_id_table_positions(names: Seq<Seq<char>>)
    requires
        names.len() <= MAX_NAMES,
    ensures
        id_table(names).dom() == names.to_set(),
        forall|k: Seq<char>|
            #[trigger] id_table(names).contains_key(k) ==> 0 <= id_table(names)[k] < names.len()
                && names[id_table(names)[k] as int] == k,
        forall|i: int| 0 <= i < names.len() ==> id_table(names)[#[trigger] names[i]] >= i,
    decreases names.len(),
{
    if names.len() > 0 {
        let before = names.drop_last();
        lemma_id_table_positions(before);
        assert(id_table(names).dom() =~= names.to_set()) by {
            assert forall|k: Seq<char>| names.to_set().contains(k) implies id_table(
                names,
            ).contains_key(k) by {
                let i = choose|i: int| 0 <= i < names.len() && names[i] == k;
                if i < names.len() - 1 {
                    assert(before[i] == k);
                    assert(before.to_set().contains(k));
                }
            }
            assert forall|k: Seq<char>| id_table(names).contains_key(k) implies names.to_set().contains(
                k,
            ) by {
                if k != names.last() {
                    assert(before.to_set().contains(k));
                    let i = choose|i: int| 0 <= i < before.len() && before[i] == k;
                    assert(names[i] == k);
                } else {
                    assert(names[names.len() - 1] == k);
                }
            }
        }
        assert forall|k: Seq<char>| #[trigger] id_table(names).contains_key(k) implies 0 <= id_table(
            names,
        )[k] < names.len() && names[id_table(names)[k] as int] == k by {
            if k != names.last() {
                assert(before[id_table(before)[k] as int] == k);
            }
        }
        assert forall|i: int| 0 <= i < names.len() implies id_table(names)[#[trigger] names[i]]
            >= i by {
            if names[i] != names.last() {
                assert(before[i] == names[i]);
            }
        }
    }
}

/// Skipping blank lines never adds lines.
pub proof fn lemma_nonempty_len(lines: Seq<Seq<char>>)
    ensures
        nonempty(lines).len() <= lines.len(),
    decreases lines.len(),
{
    if lines.len() > 0 {
        lemma_nonempty_len(lines.drop_last());
    }
}

/// Building twice from the same manifest lines and the same image stems gives
/// the same table.
pub proof fn lemma_mappings_deterministic(
    lines1: Seq<Seq<char>>,
    stems1: Seq<Seq<char>>,
    lines2: Seq<Seq<char>>,
    stems2: Seq<Seq<char>>,
)
    requires
        lines1 == lines2,
        stems1 == stems2,
    ensures
        mapping_table(lines1, stems1) == mapping_table(lines2, stems2),
{
}

/// When no name repeats across the manifest and the images, identifiers are
/// unique and run from 0 up without a gap, in input order.
pub proof fn lemma_ids_unique_and_dense(lines: Seq<Seq<char>>, stems: Seq<Seq<char>>)
    requires
        lines.len() + stems.len() <= MAX_NAMES,
        table_names(lines, stems).no_duplicates(),
    ensures
        mapping_table(lines, stems).dom() == table_names(lines, stems).to_set(),
        forall|i: int|
            0 <= i < table_names(lines, stems).len() ==> mapping_table(lines, stems)[#[trigger] table_names(
                lines,
                stems,
            )[i]] == i,
        forall|k1: Seq<char>, k2: Seq<char>|
            #[trigger] mapping_table(lines, stems).contains_key(k1) && #[trigger] mapping_table(
                lines,
                stems,
            ).contains_key(k2) && k1 != k2 ==> mapping_table(lines, stems)[k1] != mapping_table(
                lines,
                stems,
            )[k2],
        mapping_table(lines, stems).values() == Set::new(
            |v: i16| 0 <= v < table_names(lines, stems).len(),
        ),
{
    let names = table_names(lines, stems);
    let t = mapping_table(lines, stems);
    let trimmed = lines.map_values(|l: Seq<char>| trim_of(l));
    lemma_nonempty_len(trimmed);
    assert(names.len() <= MAX_NAMES);
    lemma_id_table_positions(names);
    assert forall|i: int| 0 <= i < names.len() implies t[#[trigger] names[i]] == i by {
        assert(names.to_set().contains(names[i]));
        let j = t[names[i]] as int;
        assert(names[j] == names[i]);
    }
    assert(t.values() =~= Set::new(|v: i16| 0 <= v < names.len())) by {
        assert forall|v: i16| 0 <= v < names.len() implies #[trigger] t.values().contains(v) by {
            assert(names.to_set().contains(names[v as int]));
            assert(t[names[v as int]] == v);
        }
    }
}

/// Numbers `names` in order, from 0; a repeated name keeps its later number.
pub fn assign_ids(names: &Vec<String>) -> (r: StringHashMap<i16>)
    requires
        names.len() <= MAX_NAMES,
    ensures
        r@ == id_table(views(names@)),
{
    let mut m: StringHashMap<i16> = StringHashMap::new();
    let mut i: usize = 0;
    while i < names.len()
        invariant
            i <= names.len() <= MAX_NAMES,
            m@ == id_table(views(names@.take(i as int))),
        decreases names.len() - i,
    {
        proof {
            assert(views(names@.take(i as int + 1)).drop_last() =~= views(names@.take(i as int)));
        }
        m.insert(names[i].clone(), i as i16);
        i = i + 1;
    }
    proof {
        assert(names@.take(i as int) =~= names@);
    }
    m
}

/// Trims every line, keeping the order.
pub(crate) fn trim_lines(lines: &Vec<String>) -> (r: Vec<String>)
    ensures
        views(r@) == views(lines@).map_values(|l: Seq<char>| trim_of(l)),
{
    let mut r: Vec<String> = Vec::new();
    let mut i: usize = 0;
    while i < lines.len()
        invariant
            i <= lines.len(),
            r.len() == i,
            forall|k: int| 0 <= k < i ==> (#[trigger] r@[k])@ == trim_of(lines@[k]@),
        decreases lines.len() - i,
    {
        let t = trim(lines[i].as_str());
        r.push(t);
        i = i + 1;
    }
    assert(views(r@) =~= views(lines@).map_values(|l: Seq<char>| trim_of(l)));
    r
}

/// Numbers `names` in order, from 0, or returns `None` when a name repeats.
pub fn assign_unique_ids(names: &Vec<String>) -> (r: Option<StringHashMap<i16>>)
    requires
        names.len() <= MAX_NAMES,
    ensures
        r.is_some() == views(names@).no_duplicates(),
        r matches Some(m) ==> m@ == id_table(views(names@)),
{
    let mut m: StringHashMap<i16> = StringHashMap::new();
    let mut i: usize = 0;
    while i < names.len()
        invariant
            i <= names.len() <= MAX_NAMES,
            m@ == id_table(views(names@.take(i as int))),
            views(names@.take(i as int)).no_duplicates(),
        decreases names.len() - i,
    {
        let ghost done = views(names@.take(i as int));
        proof {
            lemma_id_table_positions(done);
            assert(views(names@.take(i as int + 1)) =~= done.push(names@[i as int]@));
        }
        if m.contains_key(names[i].as_str()) {
            proof {
                let j = choose|j: int| 0 <= j < done.len() && done[j] == names@[i as int]@;
                assert(views(names@)[j] == views(names@)[i as int]);
            }
            return None;
        }
        m.insert(names[i].clone(), i as i16);
        proof {
            let now = views(names@.take(i as int + 1));
            assert(now.drop_last() =~= done);
            assert forall|a: int, b: int|
                0 <= a < now.len() && 0 <= b < now.len() && a != b implies #[trigger] now[a]
                != #[trigger] now[b] by {
                if b == i {
                    assert(done.to_set().contains(done[a]));
                } else if a == i {
                    assert(done.to_set().contains(done[b]));
                } else {
                    assert(done[a] != done[b]);
                }
            }
        }
        i = i + 1;
    }
    proof {
        assert(names@.take(i as int) =~= names@);
    }
    Some(m)
}

/// Builds the table from manifest lines that are already trimmed and from
/// image stems: blank lines are skipped, every other line and then every stem
/// gets the next identifier.
pub fn mappings_from_trimmed(trimmed: &Vec<String>, stems: &Vec<String>) -> (r: StringHashMap<i16>)
    requires
        trimmed.len() + stems.len() <= MAX_NAMES,
    ensures
        r@ == id_table(names_from_trimmed(views(trimmed@), views(stems@))),
{
    let names = collect_names(trimmed, stems);
    assign_ids(&names)
}

/// Like `mappings_from_trimmed`, but refuses a name given twice: `None` when
/// some name repeats across the non-blank lines and the stems.
pub fn unique_mappings_from_trimmed(trimmed: &Vec<String>, stems: &Vec<String>) -> (r: Option<
    StringHashMap<i16>,
>)
    requires
        trimmed.len() + stems.len() <= MAX_NAMES,
    ensures
        r.is_some() == names_from_trimmed(views(trimmed@), views(stems@)).no_duplicates(),
        r matches Some(m) ==> m@ == id_table(names_from_trimmed(views(trimmed@), views(stems@))),
{
    let names = collect_names(trimmed, stems);
    assign_unique_ids(&names)
}

/// The non-blank lines of `trimmed`, then the stems.
fn collect_names(trimmed: &Vec<String>, stems: &Vec<String>) -> (r: Vec<String>)
    requires
        trimmed.len() + stems.len() <= MAX_NAMES,
    ensures
        views(r@) == names_from_trimmed(views(trimmed@), views(stems@)),
        r.len() <= MAX_NAMES,
{
    let mut names: Vec<String> = Vec::new();
    let mut i: usize = 0;
    while i < trimmed.len()
        invariant
            i <= trimmed.len(),
            views(names@) == nonempty(views(trimmed@.take(i as int))),
            names.len() <= i,
        decreases trimmed.len() - i,
    {
        proof {
            assert(views(trimmed@.take(i as int + 1)).drop_last() =~= views(trimmed@.take(i as int)));
        }
        if !trimmed[i].as_str().is_empty() {
            let ghost old_names = names@;
            names.push(trimmed[i].clone());
            proof {
                assert(views(names@) =~= views(old_names).push(trimmed@[i as int]@));
            }
        }
        i = i + 1;
    }
    proof {
        assert(trimmed@.take(i as int) =~= trimmed@);
    }
    let mut j: usize = 0;
    while j < stems.len()
        invariant
            j <= stems.len(),
            trimmed.len() + stems.len() <= MAX_NAMES,
            names.len() <= trimmed.len() + j,
            views(names@) == nonempty(views(trimmed@)) + views(stems@).take(j as int),
        decreases stems.len() - j,
    {
        let ghost old_names = names@;
        names.push(stems[j].clone());
        proof {
            assert(views(names@) =~= views(old_names).push(stems@[j as int]@));
            assert(views(stems@).take(j as int + 1) =~= views(stems@).take(j as int).push(
                stems@[j as int]@,
            ));
            assert(views(names@) =~= nonempty(views(trimmed@)) + views(stems@).take(j as int + 1));
        }
        j = j + 1;
    }
    proof {
        assert(views(stems@).take(j as int) =~= views(stems@));
    }
    names
}

} // verus!
