//! The configuration files of a directory, by name, in ascending order.
use vstd::prelude::*;
use vstd::string::*;
use crate::locate::{extension_in, extension_of, file_name_of, is_config_ext, yaml_ext, yml_ext};

verus! {

broadcast use vstd::seq_lib::group_to_multiset_ensures;

/// `a` comes before `b` or equals it, comparing character by character.
pub open spec fn lex_le(a: Seq<char>, b: Seq<char>) -> bool
    decreases a.len(),
{
    if a.len() == 0 {
        true
    } else if b.len() == 0 {
        false
    } else if (a[0] as u32) < (b[0] as u32) {
        true
    } else if (a[0] as u32) > (b[0] as u32) {
        false
    } else {
        lex_le(a.drop_first(), b.drop_first())
    }
}

pub proof fn lemma_lex_total(a: Seq<char>, b: Seq<char>)
    ensures
        lex_le(a, b) || lex_le(b, a),
    decreases a.len(),
{
    if a.len() > 0 && b.len() > 0 && a[0] as u32 == b[0] as u32 {
        lemma_lex_total(a.drop_first(), b.drop_first());
    }
}

pub proof fn lemma_lex_trans(a: Seq<char>, b: Seq<char>, c: Seq<char>)
    requires
        lex_le(a, b),
        lex_le(b, c),
    ensures
        lex_le(a, c),
    decreases a.len(),
{
    if a.len() > 0 && b.len() > 0 && c.len() > 0 && a[0] as u32 == b[0] as u32 && b[0] as u32
        == c[0] as u32 {
        lemma_lex_trans(a.drop_first(), b.drop_first(), c.drop_first());
    }
}

/// Whether `name` carries one of the two configuration extensions.
pub open spec fn is_config_name(name: Seq<char>) -> bool {
    match extension_of(file_name_of(name)) {
        Some(e) => is_config_ext(e),
        None => false,
    }
}

/// The names among `s` that carry a configuration extension, in their order.
pub open spec fn config_names(s: Seq<Seq<char>>) -> Seq<Seq<char>>
    decreases s.len(),
{
    if s.len() == 0 {
        Seq::empty()
    } else if is_config_name(s.last()) {
        config_names(s.drop_last()).push(s.last())
    } else {
        config_names(s.drop_last())
    }
}

/// The text of each string.
pub open spec fn views(s: Seq<String>) -> Seq<Seq<char>> {
    s.map_values(|x: String| x@)
}

/// Each element comes before or equals the next.
pub open spec fn sorted(s: Seq<Seq<char>>) -> bool {
    forall|i: int, j: int| 0 <= i < j < s.len() ==> lex_le(s[i], s[j])
}

/// Compares two strings as `lex_le` does.
pub fn lex_le_str(a: &str, b: &str) -> (r: bool)
    ensures
        r == lex_le(a@, b@),
{
    let la = a.unicode_len();
    let lb = b.unicode_len();
    let mut i: usize = 0;
    assert(a@.subrange(0, la as int) =~= a@);
    assert(b@.subrange(0, lb as int) =~= b@);
    while i < la && i < lb
        invariant
            la == a@.len(),
            lb == b@.len(),
            i <= la,
            i <= lb,
            lex_le(a@, b@) == lex_le(a@.subrange(i as int, la as int), b@.subrange(i as int, lb as int)),
        decreases la - i,
    {
        let ca = a.get_char(i);
        let cb = b.get_char(i);
        let ghost sa = a@.subrange(i as int, la as int);
        let ghost sb = b@.subrange(i as int, lb as int);
        assert(sa[0] == ca && sb[0] == cb);
        if (ca as u32) < (cb as u32) {
            return true;
        }
        if (ca as u32) > (cb as u32) {
            return false;
        }
        assert(sa.drop_first() =~= a@.subrange(i + 1, la as int));
        assert(sb.drop_first() =~= b@.subrange(i + 1, lb as int));
        i = i + 1;
    }
    i == la
}

/// Whether `name` carries one of the two configuration extensions.
pub fn is_config_file_name(name: &str) -> (r: bool)
    ensures
        r == is_config_name(name@),
{
    proof {
        reveal_strlit("yaml");
        reveal_strlit("yml");
    }
    match extension_in(name) {
        Some(e) => {
            let yaml = String::from_str("yaml");
            let yml = String::from_str("yml");
            assert(yaml@ =~= yaml_ext());
            assert(yml@ =~= yml_ext());
            e == yaml || e == yml
        },
        None => false,
    }
}

/// The entries of `names` that carry a configuration extension, sorted ascending.
pub fn config_files(names: &Vec<String>) -> (r: Vec<String>)
    ensures
        sorted(views(r@)),
        r@.len() == config_names(views(names@)).len(),
        views(r@).to_multiset() == config_names(views(names@)).to_multiset(),
{
    let mut rem: Vec<String> = Vec::new();
    let mut i: usize = 0;
    while i < names.len()
        invariant
            i <= names@.len(),
            views(rem@) == config_names(views(names@.subrange(0, i as int))),
        decreases names@.len() - i,
    {
        let ghost sub = views(names@.subrange(0, i + 1));
        assert(sub.drop_last() =~= views(names@.subrange(0, i as int)));
        assert(sub.last() == names@[i as int]@);
        if is_config_file_name(names[i].as_str()) {
            rem.push(names[i].clone());
            assert(views(rem@) =~= config_names(sub));
        }
        i = i + 1;
    }
    assert(names@.subrange(0, names@.len() as int) =~= names@);
    let ghost total = views(rem@).to_multiset();
    let mut out: Vec<String> = Vec::new();
    while rem.len() > 0
        invariant
            sorted(views(out@)),
            forall|a: int, b: int|
                0 <= a < out@.len() && 0 <= b < rem@.len() ==> lex_le(out@[a]@, rem@[b]@),
            views(out@).to_multiset().add(views(rem@).to_multiset()) == total,
        decreases rem@.len(),
    {
        let mut m: usize = 0;
        let mut j: usize = 1;
        proof {
            lemma_lex_total(rem@[0]@, rem@[0]@);
        }
        while j < rem.len()
            invariant
                0 <= m < j <= rem@.len(),
                forall|k: int| 0 <= k < j ==> lex_le(rem@[m as int]@, #[trigger] rem@[k]@),
            decreases rem@.len() - j,
        {
            if !lex_le_str(rem[m].as_str(), rem[j].as_str()) {
                proof {
                    lemma_lex_total(rem@[m as int]@, rem@[j as int]@);
                    assert forall|k: int| 0 <= k < j + 1 implies lex_le(
                        rem@[j as int]@,
                        #[trigger] rem@[k]@,
                    ) by {
                        if k == j {
                            lemma_lex_total(rem@[j as int]@, rem@[j as int]@);
                        } else {
                            lemma_lex_trans(rem@[j as int]@, rem@[m as int]@, rem@[k]@);
                        }
                    }
                }
                m = j;
            }
            j = j + 1;
        }
        let ghost before_rem = rem@;
        let ghost before_out = out@;
        let x = rem.remove(m);
        out.push(x);
        proof {
            assert(views(rem@) =~= views(before_rem).remove(m as int));
            assert(views(out@) =~= views(before_out).push(x@));
            assert(views(before_rem)[m as int] == x@);
            assert forall|a: int, b: int| 0 <= a < b < views(out@).len() implies lex_le(
                views(out@)[a],
                views(out@)[b],
            ) by {
                if b == before_out.len() {
                    assert(lex_le(before_out[a]@, before_rem[m as int]@));
                } else {
                    assert(views(out@)[a] == views(before_out)[a]);
                }
            }
            assert forall|a: int, b: int|
                0 <= a < out@.len() && 0 <= b < rem@.len() implies lex_le(out@[a]@, rem@[b]@) by {
                let ob = if b < m { b } else { b + 1 };
                assert(rem@[b] == before_rem[ob]);
                if a < before_out.len() {
                    assert(out@[a] == before_out[a]);
                } else {
                    assert(lex_le(before_rem[m as int]@, before_rem[ob]@));
                }
            }
            assert(views(out@).to_multiset() =~= views(before_out).to_multiset().insert(x@));
            assert(views(rem@).to_multiset() =~= views(before_rem).to_multiset().remove(x@));
            assert(views(out@).to_multiset().add(views(rem@).to_multiset()) =~= total);
        }
    }
    assert(views(rem@).to_multiset() =~= vstd::multiset::Multiset::empty());
    assert(views(out@).to_multiset().len() == views(out@).len());
    assert(config_names(views(names@)).to_multiset().len() == config_names(views(names@)).len());
    out
}

} // verus!
