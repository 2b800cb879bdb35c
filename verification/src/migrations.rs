use vstd::prelude::*;
use vstd::seq_lib::lemma_multiset_commutative;

verus! {

broadcast use vstd::seq_lib::group_to_multiset_ensures;

/// Whether a directory entry named `name` has the extension `sql`, as
/// `Path::extension` sees it: the part after the last `.` is `sql`, and that
/// `.` is not the first byte of the name.
pub open spec fn has_sql_extension(name: Seq<u8>) -> bool {
    name.len() > 4 && name.skip(name.len() - 4) == seq![46u8, 115u8, 113u8, 108u8]
}

/// Whether a name is a migration file depends only on its extension: every
/// name made of at least one byte followed by `.sql` is one, whatever its
/// length; every migration file is such a name; and a migration file stays
/// one when bytes are inserted before its extension.
pub proof fn lemma_sql_extension_is_the_suffix(stem: Seq<u8>, name: Seq<u8>, extra: Seq<u8>)
    ensures
        stem.len() >= 1 ==> has_sql_extension(stem + seq![46u8, 115u8, 113u8, 108u8]),
        has_sql_extension(name) ==> name.len() >= 5 && name =~= name.take(name.len() - 4) + seq![
            46u8,
            115u8,
            113u8,
            108u8,
        ],
        has_sql_extension(name) ==> has_sql_extension(
            name.take(name.len() - 4) + extra + seq![46u8, 115u8, 113u8, 108u8],
        ),
{
    let ext = seq![46u8, 115u8, 113u8, 108u8];
    if stem.len() >= 1 {
        let n = stem + ext;
        assert(n.skip(n.len() - 4) =~= ext);
    }
    if has_sql_extension(name) {
        assert(name.take(name.len() - 4) + name.skip(name.len() - 4) =~= name);
        let m = name.take(name.len() - 4) + extra + ext;
        assert(m.skip(m.len() - 4) =~= ext);
    }
}

/// The lexicographic byte order in which paths of one directory sort.
pub open spec fn bytes_le(a: Seq<u8>, b: Seq<u8>) -> bool
    decreases a.len(),
{
    if a.len() == 0 {
        true
    } else if b.len() == 0 {
        false
    } else if a[0] != b[0] {
        a[0] < b[0]
    } else {
        bytes_le(a.drop_first(), b.drop_first())
    }
}

/// Any two byte strings are ordered one way or the other.
pub proof fn lemma_bytes_le_total(a: Seq<u8>, b: Seq<u8>)
    ensures
        bytes_le(a, b) || bytes_le(b, a),
    decreases a.len(),
{
    if a.len() > 0 && b.len() > 0 && a[0] == b[0] {
        lemma_bytes_le_total(a.drop_first(), b.drop_first());
    }
}

/// The byte order is transitive.
pub proof fn lemma_bytes_le_trans(a: Seq<u8>, b: Seq<u8>, c: Seq<u8>)
    requires
        bytes_le(a, b),
        bytes_le(b, c),
    ensures
        bytes_le(a, c),
    decreases a.len(),
{
    if a.len() > 0 && b.len() > 0 && c.len() > 0 && a[0] == b[0] && b[0] == c[0] {
        lemma_bytes_le_trans(a.drop_first(), b.drop_first(), c.drop_first());
    }
}

/// The byte order is lexicographic: a name sorts no later than every name it
/// is a prefix of, and otherwise the first byte at which two names differ
/// decides, the smaller byte first.
pub proof fn lemma_bytes_le_lexicographic(a: Seq<u8>, b: Seq<u8>, i: int)
    ensures
        a.len() <= b.len() && b.take(a.len() as int) == a ==> bytes_le(a, b),
        0 <= i < a.len() && i < b.len() && a.take(i) == b.take(i) && a[i] < b[i] ==> bytes_le(
            a,
            b,
        ) && !bytes_le(b, a),
    decreases a.len(),
{
    if a.len() > 0 && b.len() > 0 {
        if a.len() <= b.len() && b.take(a.len() as int) == a {
            assert(b[0] == b.take(a.len() as int)[0]);
            assert(b.drop_first().take(a.drop_first().len() as int) =~= a.drop_first());
            lemma_bytes_le_lexicographic(a.drop_first(), b.drop_first(), i - 1);
        }
        if 0 <= i < a.len() && i < b.len() && a.take(i) == b.take(i) && a[i] < b[i] {
            if i > 0 {
                assert(a[0] == a.take(i)[0]);
                assert(b[0] == b.take(i)[0]);
                assert(a.drop_first().take(i - 1) =~= b.drop_first().take(i - 1)) by {
                    assert forall|j: int| 0 <= j < i - 1 implies a.drop_first()[j] == b.drop_first()[j] by {
                        assert(a[j + 1] == a.take(i)[j + 1]);
                        assert(b[j + 1] == b.take(i)[j + 1]);
                    }
                }
                lemma_bytes_le_lexicographic(a.drop_first(), b.drop_first(), i - 1);
            }
        }
    }
}

/// Whether `s` is in ascending byte order.
pub open spec fn sorted_by_bytes(s: Seq<Seq<u8>>) -> bool {
    forall|i: int, j: int| 0 <= i < j < s.len() ==> bytes_le(#[trigger] s[i], #[trigger] s[j])
}

/// Compares two byte strings in the order of `bytes_le`.
pub fn bytes_le_exec(a: &Vec<u8>, b: &Vec<u8>) -> (r: bool)
    ensures
        r == bytes_le(a@, b@),
{
    let mut i: usize = 0;
    assert(a@.skip(0) =~= a@);
    assert(b@.skip(0) =~= b@);
    while i < a.len() && i < b.len()
        invariant
            i <= a.len(),
            i <= b.len(),
            bytes_le(a@, b@) == bytes_le(a@.skip(i as int), b@.skip(i as int)),
        decreases a.len() - i,
    {
        assert(a@.skip(i as int)[0] == a@[i as int]);
        assert(b@.skip(i as int)[0] == b@[i as int]);
        if a[i] != b[i] {
            return a[i] < b[i];
        }
        assert(a@.skip(i as int).drop_first() =~= a@.skip(i + 1));
        assert(b@.skip(i as int).drop_first() =~= b@.skip(i + 1));
        i = i + 1;
    }
    assert(i == a.len() ==> a@.skip(i as int).len() == 0);
    assert(i < a.len() ==> a@.skip(i as int).len() > 0 && b@.skip(i as int).len() == 0);
    i == a.len()
}

/// Whether the entry name `name` ends in `.sql` after at least one byte.
pub fn is_sql_file(name: &Vec<u8>) -> (r: bool)
    ensures
        r == has_sql_extension(name@),
{
    let n = name.len();
    if n <= 4 {
        return false;
    }
    let r = name[n - 4] == 46u8 && name[n - 3] == 115u8 && name[n - 2] == 113u8 && name[n - 1]
        == 108u8;
    assert(r == (name@.skip(n - 4) =~= seq![46u8, 115u8, 113u8, 108u8]));
    r
}

proof fn lemma_insert_to_multiset(s: Seq<Seq<u8>>, p: int, x: Seq<u8>)
    requires
        0 <= p <= s.len(),
    ensures
        s.insert(p, x).to_multiset() == s.to_multiset().insert(x),
{
    let a = s.take(p);
    let b = s.skip(p);
    assert(s.insert(p, x) =~= a.push(x) + b);
    assert(s =~= a + b);
    lemma_multiset_commutative(a.push(x), b);
    lemma_multiset_commutative(a, b);
    assert(a.push(x).to_multiset() =~= a.to_multiset().insert(x));
    assert(s.insert(p, x).to_multiset() =~= s.to_multiset().insert(x));
}

/// The migration files among the entries of the migrations directory, in the
/// order in which they are applied: the entries whose extension is `sql`,
/// sorted by their bytes.
pub fn select_migration_files(entries: Vec<Vec<u8>>) -> (files: Vec<Vec<u8>>)
    ensures
        sorted_by_bytes(files@.map_values(|f: Vec<u8>| f@)),
        files@.map_values(|f: Vec<u8>| f@).to_multiset() == entries@.map_values(
            |f: Vec<u8>| f@,
        ).filter(|n: Seq<u8>| has_sql_extension(n)).to_multiset(),
{
    let ghost pred = |n: Seq<u8>| has_sql_extension(n);
    let ghost all = entries@.map_values(|f: Vec<u8>| f@);
    let mut files: Vec<Vec<u8>> = Vec::new();
    let mut i: usize = 0;
    while i < entries.len()
        invariant
            i <= entries.len(),
            all == entries@.map_values(|f: Vec<u8>| f@),
            pred == (|n: Seq<u8>| has_sql_extension(n)),
            sorted_by_bytes(files@.map_values(|f: Vec<u8>| f@)),
            files@.map_values(|f: Vec<u8>| f@).to_multiset() == all.take(i as int).filter(
                pred,
            ).to_multiset(),
        decreases entries.len() - i,
    {
        let ghost before = files@.map_values(|f: Vec<u8>| f@);
        proof {
            assert(all.take(i + 1) =~= all.take(i as int).push(all[i as int]));
            all.take(i as int).lemma_filter_push(all[i as int], pred);
        }
        let entry = &entries[i];
        if is_sql_file(entry) {
            let mut p: usize = 0;
            while p < files.len() && bytes_le_exec(&files[p], entry)
                invariant
                    p <= files.len(),
                    before == files@.map_values(|f: Vec<u8>| f@),
                    forall|k: int| 0 <= k < p ==> bytes_le(#[trigger] before[k], entry@),
                decreases files.len() - p,
            {
                p = p + 1;
            }
            let ghost x = entry@;
            files.insert(p, entry.clone());
            proof {
                let after = files@.map_values(|f: Vec<u8>| f@);
                assert(after =~= before.insert(p as int, x));
                lemma_insert_to_multiset(before, p as int, x);
                if p < before.len() {
                    lemma_bytes_le_total(before[p as int], x);
                }
                assert forall|a: int, b: int| 0 <= a < b < after.len() implies bytes_le(
                    #[trigger] after[a],
                    #[trigger] after[b],
                ) by {
                    if b < p {
                    } else if b == p {
                    } else if a < p {
                        assert(after[b] == before[b - 1]);
                        lemma_bytes_le_trans(before[a], x, before[p as int]);
                        if b - 1 > p {
                            lemma_bytes_le_trans(before[a], before[p as int], before[b - 1]);
                        }
                    } else if a == p {
                        assert(after[b] == before[b - 1]);
                        if b - 1 > p {
                            lemma_bytes_le_trans(x, before[p as int], before[b - 1]);
                        }
                    } else {
                        assert(after[a] == before[a - 1]);
                        assert(after[b] == before[b - 1]);
                    }
                }
            }
        }
        i = i + 1;
    }
    assert(all.take(entries.len() as int) =~= all);
    files
}

} // verus!
