use vstd::prelude::*;

verus! {

/// Lexicographic order on strings, character by character, a proper prefix first.
/// This is the order of `str`'s `Ord`, since UTF-8 keeps the order of code points.
pub open spec fn str_less(a: Seq<char>, b: Seq<char>) -> bool
    decreases a.len(),
{
    if a.len() == 0 {
        b.len() > 0
    } else if b.len() == 0 {
        false
    } else if a[0] != b[0] {
        a[0] < b[0]
    } else {
        str_less(a.drop_first(), b.drop_first())
    }
}

/// Whether `a` comes strictly before `b`.
pub fn is_less(a: &str, b: &str) -> (r: bool)
    ensures
        r == str_less(a@, b@),
{
    let la = a.unicode_len();
    let lb = b.unicode_len();
    let mut i: usize = 0;
    assert(a@.skip(0) =~= a@);
    assert(b@.skip(0) =~= b@);
    while i < la && i < lb
        invariant
            la == a@.len(),
            lb == b@.len(),
            i <= la,
            i <= lb,
            str_less(a@, b@) == str_less(a@.skip(i as int), b@.skip(i as int)),
        decreases la - i,
    {
        let ca = a.get_char(i);
        let cb = b.get_char(i);
        if ca != cb {
            return ca < cb;
        }
        assert(a@.skip(i as int).drop_first() =~= a@.skip(i + 1));
        assert(b@.skip(i as int).drop_first() =~= b@.skip(i + 1));
        i = i + 1;
    }
    i < lb
}


/// Whether `a` and `b` hold the same characters.
pub fn same_text(a: &str, b: &str) -> (r: bool)
    ensures
        r == (a@ == b@),
{
    proof {
        lemma_less_irreflexive(a@);
        if a@ != b@ {
            lemma_less_total(a@, b@);
        }
    }
    !is_less(a, b) && !is_less(b, a)
}

/// `a` followed by `b`, as a new string.
pub fn concatenated(a: &str, b: &str) -> (r: String)
    ensures
        r@ == a@ + b@,
{
    let mut s = String::from_str(a);
    s.append(b);
    s
}

/// The characters of each string, in order.
pub open spec fn strs(v: Seq<String>) -> Seq<Seq<char>> {
    v.map_values(|s: String| s@)
}

/// The text of an optional string.
pub open spec fn opt_text(o: Option<String>) -> Option<Seq<char>> {
    match o {
        Some(s) => Some(s@),
        None => None,
    }
}

/// Copies an optional string.
pub fn clone_opt(o: &Option<String>) -> (r: Option<String>)
    ensures
        opt_text(r) == opt_text(*o),
{
    match o {
        Some(s) => Some(s.clone()),
        None => None,
    }
}

/// Copies a list of strings.
pub fn clone_strs(v: &Vec<String>) -> (r: Vec<String>)
    ensures
        strs(r@) == strs(v@),
{
    let r = v.clone();
    assert(strs(r@) =~= strs(v@));
    r
}

/// `parts` joined with `sep` between each two of them.
pub open spec fn joined(parts: Seq<Seq<char>>, sep: Seq<char>) -> Seq<char>
    decreases parts.len(),
{
    if parts.len() == 0 {
        Seq::empty()
    } else if parts.len() == 1 {
        parts[0]
    } else {
        joined(parts.drop_last(), sep) + sep + parts.last()
    }
}

/// Joins `parts` with `sep` between each two of them.
pub fn join(parts: &Vec<String>, sep: &str) -> (r: String)
    ensures
        r@ == joined(strs(parts@), sep@),
{
    let mut r = String::new();
    let mut i: usize = 0;
    while i < parts.len()
        invariant
            i <= parts@.len(),
            r@ == joined(strs(parts@).subrange(0, i as int), sep@),
        decreases parts@.len() - i,
    {
        let ghost before = strs(parts@).subrange(0, i as int);
        if i > 0 {
            r.append(sep);
        }
        r.append(parts[i].as_str());
        proof {
            let after = strs(parts@).subrange(0, i + 1);
            assert(after.drop_last() =~= before);
            if i == 0 {
                assert(r@ =~= after[0]);
            }
        }
        i = i + 1;
    }
    assert(strs(parts@).subrange(0, i as int) =~= strs(parts@));
    r
}

/// Every string comes strictly before the ones after it: sorted, with no repeats.
pub open spec fn sorted_strict(s: Seq<Seq<char>>) -> bool {
    forall|i: int, j: int| 0 <= i < j < s.len() ==> str_less(#[trigger] s[i], #[trigger] s[j])
}

pub proof fn lemma_less_irreflexive(a: Seq<char>)
    ensures
        !str_less(a, a),
    decreases a.len(),
{
    if a.len() > 0 {
        lemma_less_irreflexive(a.drop_first());
    }
}

pub proof fn lemma_less_transitive(a: Seq<char>, b: Seq<char>, c: Seq<char>)
    requires
        str_less(a, b),
        str_less(b, c),
    ensures
        str_less(a, c),
    decreases a.len(),
{
    if a.len() > 0 && b.len() > 0 && c.len() > 0 && a[0] == b[0] && b[0] == c[0] {
        lemma_less_transitive(a.drop_first(), b.drop_first(), c.drop_first());
    }
}

pub proof fn lemma_less_total(a: Seq<char>, b: Seq<char>)
    requires
        a != b,
    ensures
        str_less(a, b) || str_less(b, a),
    decreases a.len(),
{
    if a.len() == 0 && b.len() == 0 {
        assert(a =~= b);
    } else if a.len() > 0 && b.len() > 0 && a[0] == b[0] {
        if a.drop_first() == b.drop_first() {
            assert(a =~= seq![a[0]] + a.drop_first());
            assert(b =~= seq![b[0]] + b.drop_first());
        }
        lemma_less_total(a.drop_first(), b.drop_first());
    }
}

/// Adds `t` to a sorted list of distinct strings, keeping it sorted and distinct.
pub fn insert_sorted(tags: &mut Vec<String>, t: &String)
    requires
        sorted_strict(strs(old(tags)@)),
    ensures
        sorted_strict(strs(final(tags)@)),
        strs(final(tags)@).to_set() == strs(old(tags)@).to_set().insert(t@),
{
    let n = tags.len();
    let mut i: usize = 0;
    while i < n
        invariant
            n == tags@.len(),
            i <= n,
            sorted_strict(strs(tags@)),
            forall|k: int| 0 <= k < i ==> str_less(#[trigger] tags@[k]@, t@),
        ensures
            n == tags@.len(),
            i <= n,
            sorted_strict(strs(tags@)),
            forall|k: int| 0 <= k < i ==> str_less(#[trigger] tags@[k]@, t@),
            i < n ==> str_less(t@, tags@[i as int]@),
        decreases n - i,
    {
        if tags[i] == *t {
            proof {
                assert(strs(tags@)[i as int] == t@);
                assert(strs(tags@).to_set().insert(t@) =~= strs(tags@).to_set());
            }
            return;
        }
        if is_less(t.as_str(), tags[i].as_str()) {
            break;
        }
        proof {
            if tags@[i as int]@ == t@ {
                assert(strs(tags@)[i as int] == t@);
            }
            lemma_less_total(tags@[i as int]@, t@);
        }
        i = i + 1;
    }
    let ghost before = strs(tags@);
    proof {
        if i < n {
            assert forall|j: int| i <= j < n implies str_less(t@, #[trigger] before[j]) by {
                assert(before[i as int] == tags@[i as int]@);
                if j > i {
                    assert(str_less(before[i as int], before[j]));
                    lemma_less_transitive(t@, before[i as int], before[j]);
                }
            }
        }
    }
    tags.insert(i, t.clone());
    proof {
        let after = strs(tags@);
        assert(after =~= before.insert(i as int, t@));
        assert forall|a: int, b: int| 0 <= a < b < after.len() implies str_less(
            #[trigger] after[a],
            #[trigger] after[b],
        ) by {
            if b < i {
            } else if b == i {
            } else if a < i {
                assert(str_less(before[a], t@));
                assert(str_less(t@, before[b - 1]));
                lemma_less_transitive(before[a], t@, before[b - 1]);
            } else if a == i {
            } else {
                assert(str_less(before[a - 1], before[b - 1]));
            }
        }
        assert forall|x: Seq<char>| after.to_set().contains(x) <==> before.to_set().insert(
            t@,
        ).contains(x) by {
            if after.contains(x) {
                let k = choose|k: int| 0 <= k < after.len() && after[k] == x;
                if k < i {
                    assert(before[k] == x);
                } else if k > i {
                    assert(before[k - 1] == x);
                }
            }
            if before.contains(x) {
                let k = choose|k: int| 0 <= k < before.len() && before[k] == x;
                if k < i {
                    assert(after[k] == x);
                } else {
                    assert(after[k + 1] == x);
                }
            }
            if x == t@ {
                assert(after[i as int] == x);
            }
        }
        assert(after.to_set() =~= before.to_set().insert(t@));
    }
}

} // verus!
