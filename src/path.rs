//! Slash-separated paths as character sequences: parents, ancestors and joins.
use vstd::prelude::*;
use vstd::string::*;

verus! {

/// The path with trailing separators removed (a lone `/` is kept).
pub open spec fn trim_trailing(p: Seq<char>) -> Seq<char>
    decreases p.len(),
{
    if p.len() > 1 && p.last() == '/' {
        trim_trailing(p.drop_last())
    } else {
        p
    }
}

/// Index of the last occurrence of `c` in `p`, or -1.
pub open spec fn last_index_of(p: Seq<char>, c: char) -> int
    decreases p.len(),
{
    if p.len() == 0 {
        -1
    } else if p.last() == c {
        p.len() - 1
    } else {
        last_index_of(p.drop_last(), c)
    }
}

/// The directory that contains `p`, or `None` at the root or for a bare name.
pub open spec fn parent_of(p: Seq<char>) -> Option<Seq<char>> {
    let t = trim_trailing(p);
    let k = last_index_of(t, '/');
    if k < 0 || t.len() <= 1 {
        None
    } else if k == 0 {
        Some(seq!['/'])
    } else {
        Some(t.subrange(0, k))
    }
}

pub proof fn lemma_trim_trailing_len(p: Seq<char>)
    ensures
        trim_trailing(p).len() <= p.len(),
        p.len() > 0 ==> trim_trailing(p).len() > 0,
    decreases p.len(),
{
    if p.len() > 1 && p.last() == '/' {
        lemma_trim_trailing_len(p.drop_last());
    }
}

pub proof fn lemma_last_index_range(p: Seq<char>, c: char)
    ensures
        -1 <= last_index_of(p, c) < p.len(),
        last_index_of(p, c) >= 0 ==> p[last_index_of(p, c)] == c,
        forall|j: int| last_index_of(p, c) < j < p.len() ==> p[j] != c,
    decreases p.len(),
{
    if p.len() > 0 && p.last() != c {
        lemma_last_index_range(p.drop_last(), c);
        assert forall|j: int| last_index_of(p, c) < j < p.len() implies p[j] != c by {
            if j < p.len() - 1 {
                assert(p[j] == p.drop_last()[j]);
            }
        }
    }
}

/// A parent is always strictly shorter than its child.
pub proof fn lemma_parent_shorter(p: Seq<char>)
    ensures
        parent_of(p) is Some ==> parent_of(p)->0.len() < p.len(),
{
    lemma_trim_trailing_len(p);
    lemma_last_index_range(trim_trailing(p), '/');
}

/// `p` followed by each successive parent, ending at the first path that has none.
pub open spec fn ancestors(p: Seq<char>) -> Seq<Seq<char>>
    decreases p.len(),
{
    match parent_of(p) {
        Some(q) => {
            if q.len() < p.len() {
                seq![p] + ancestors(q)
            } else {
                seq![p]
            }
        },
        None => seq![p],
    }
}

/// Each ancestor is strictly shorter than the one before it, so the walk
/// never visits a directory twice and always ends.
pub proof fn lemma_ancestors_shrink(p: Seq<char>)
    ensures
        ancestors(p).len() >= 1,
        ancestors(p)[0] == p,
        forall|i: int, j: int|
            0 <= i < j < ancestors(p).len() ==> ancestors(p)[j].len() < ancestors(p)[i].len(),
        ancestors(p).len() <= p.len() + 1,
    decreases p.len(),
{
    lemma_parent_shorter(p);
    match parent_of(p) {
        Some(q) => {
            lemma_ancestors_shrink(q);
            let a = ancestors(p);
            assert(a =~= seq![p] + ancestors(q));
            assert forall|i: int, j: int| 0 <= i < j < a.len() implies a[j].len() < a[i].len() by {
                if i > 0 {
                    assert(a[i] == ancestors(q)[i - 1]);
                    assert(a[j] == ancestors(q)[j - 1]);
                } else {
                    assert(a[j] == ancestors(q)[j - 1]);
                    if j - 1 > 0 {
                        assert(ancestors(q)[j - 1].len() < ancestors(q)[0].len());
                    }
                }
            }
        },
        None => {},
    }
}

/// `name` appended to `dir` with one separator; an absolute `name` replaces `dir`.
pub open spec fn join(dir: Seq<char>, name: Seq<char>) -> Seq<char> {
    if dir.len() == 0 || (name.len() > 0 && name[0] == '/') {
        name
    } else if dir.last() == '/' {
        dir + name
    } else {
        dir + seq!['/'] + name
    }
}

/// Length of `p` once trailing separators are removed.
pub fn trimmed_len_of(p: &str) -> (n: usize)
    ensures
        n <= p@.len(),
        trim_trailing(p@) == p@.subrange(0, n as int),
{
    let mut n = p.unicode_len();
    assert(p@.subrange(0, n as int) =~= p@);
    while n > 1 && p.get_char(n - 1) == '/'
        invariant
            n <= p@.len(),
            trim_trailing(p@) == trim_trailing(p@.subrange(0, n as int)),
        decreases n,
    {
        assert(p@.subrange(0, n as int).drop_last() =~= p@.subrange(0, n - 1));
        n = n - 1;
    }
    n
}

/// Index of the last `c` among the first `end` characters of `p`, if any.
pub fn last_index_before(p: &str, end: usize, c: char) -> (r: Option<usize>)
    requires
        end <= p@.len(),
    ensures
        match r {
            Some(k) => k < end && last_index_of(p@.subrange(0, end as int), c) == k as int,
            None => last_index_of(p@.subrange(0, end as int), c) == -1,
        },
{
    let mut j = end;
    while j > 0
        invariant
            j <= end <= p@.len(),
            last_index_of(p@.subrange(0, end as int), c) == last_index_of(
                p@.subrange(0, j as int),
                c,
            ),
        decreases j,
    {
        if p.get_char(j - 1) == c {
            return Some(j - 1);
        }
        assert(p@.subrange(0, j as int).drop_last() =~= p@.subrange(0, j - 1));
        j = j - 1;
    }
    None
}

/// The parent directory of `p`, as `parent_of` describes it.
pub fn parent_dir(p: &str) -> (r: Option<String>)
    ensures
        match r {
            Some(q) => parent_of(p@) == Some(q@),
            None => parent_of(p@) is None,
        },
{
    let n = trimmed_len_of(p);
    let t = p.substring_char(0, n);
    proof {
        assert(t@.subrange(0, n as int) =~= t@);
    }
    match last_index_before(t, n, '/') {
        None => None,
        Some(k) => {
            if n <= 1 {
                None
            } else if k == 0 {
                proof {
                    reveal_strlit("/");
                }
                let root = String::from_str("/");
                assert(root@ =~= seq!['/']);
                Some(root)
            } else {
                proof {
                    lemma_last_index_range(t@, '/');
                }
                Some(String::from_str(t.substring_char(0, k)))
            }
        },
    }
}

/// `name` joined onto `dir`, as `join` describes it.
pub fn join_path(dir: &str, name: &str) -> (r: String)
    ensures
        r@ == join(dir@, name@),
{
    proof {
        reveal_strlit("/");
    }
    let dn = dir.unicode_len();
    let nn = name.unicode_len();
    if dn == 0 || (nn > 0 && name.get_char(0) == '/') {
        String::from_str(name)
    } else if dir.get_char(dn - 1) == '/' {
        String::from_str(dir).concat(name)
    } else {
        String::from_str(dir).concat("/").concat(name)
    }
}

} // verus!
