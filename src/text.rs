//! Lines of text: splitting on line feeds, joining them back, and small
//! conversions between `str`, `String` and `Vec<char>`.

use vstd::prelude::*;

verus! {

/// The lines of `t`, split at every line feed (the last line may be empty).
pub open spec fn split_lines(t: Seq<char>) -> Seq<Seq<char>>
    decreases t.len(),
{
    if t.len() == 0 {
        seq![Seq::<char>::empty()]
    } else {
        let ls = split_lines(t.drop_last());
        if t.last() == '\n' {
            ls.push(Seq::<char>::empty())
        } else {
            ls.update(ls.len() - 1, ls.last().push(t.last()))
        }
    }
}

/// The lines `ls` joined with one line feed between each two.
pub open spec fn join_lines(ls: Seq<Seq<char>>) -> Seq<char>
    decreases ls.len(),
{
    if ls.len() == 0 {
        Seq::empty()
    } else if ls.len() == 1 {
        ls[0]
    } else {
        join_lines(ls.drop_last()) + seq!['\n'] + ls.last()
    }
}

pub open spec fn no_newline(s: Seq<char>) -> bool {
    forall|i: int| 0 <= i < s.len() ==> s[i] != '\n'
}

pub open spec fn all_no_newline(ls: Seq<Seq<char>>) -> bool {
    forall|i: int| 0 <= i < ls.len() ==> no_newline(#[trigger] ls[i])
}

pub open spec fn lines_view(v: Seq<Vec<char>>) -> Seq<Seq<char>> {
    v.map_values(|l: Vec<char>| l@)
}

proof fn lemma_split_single(l: Seq<char>)
    requires
        no_newline(l),
    ensures
        split_lines(l) == seq![l],
    decreases l.len(),
{
    if l.len() == 0 {
        assert(l =~= Seq::<char>::empty());
    } else {
        let d = l.drop_last();
        assert(no_newline(d)) by {
            assert forall|i: int| 0 <= i < d.len() implies d[i] != '\n' by {
                assert(d[i] == l[i]);
            }
        }
        lemma_split_single(d);
        assert(l[l.len() - 1] != '\n');
        assert(d.push(l.last()) =~= l);
        assert(seq![d].update(0, d.push(l.last())) =~= seq![l]);
    }
}

proof fn lemma_split_append_line(t: Seq<char>, l: Seq<char>)
    requires
        no_newline(l),
    ensures
        split_lines(t + seq!['\n'] + l) == split_lines(t).push(l),
    decreases l.len(),
{
    let whole = t + seq!['\n'] + l;
    if l.len() == 0 {
        assert(whole.drop_last() =~= t);
        assert(whole.last() == '\n');
        assert(l =~= Seq::<char>::empty());
    } else {
        let l2 = l.drop_last();
        assert(no_newline(l2)) by {
            assert forall|i: int| 0 <= i < l2.len() implies l2[i] != '\n' by {
                assert(l2[i] == l[i]);
            }
        }
        lemma_split_append_line(t, l2);
        assert(l[l.len() - 1] != '\n');
        assert(whole.last() == l.last());
        assert(l2.push(l.last()) =~= l);
        assert(whole.drop_last() =~= t + seq!['\n'] + l2);
        let ls = split_lines(t).push(l2);
        assert(ls.update(ls.len() - 1, ls.last().push(l.last())) =~= split_lines(t).push(l));
    }
}

/// Splitting the joined lines gives the lines back, when no line holds a
/// line feed.
pub proof fn lemma_split_join(ls: Seq<Seq<char>>)
    requires
        ls.len() >= 1,
        all_no_newline(ls),
    ensures
        split_lines(join_lines(ls)) == ls,
    decreases ls.len(),
{
    if ls.len() == 1 {
        lemma_split_single(ls[0]);
        assert(seq![ls[0]] =~= ls);
    } else {
        let dl = ls.drop_last();
        assert(all_no_newline(dl)) by {
            assert forall|i: int| 0 <= i < dl.len() implies no_newline(#[trigger] dl[i]) by {
                assert(dl[i] == ls[i]);
            }
        }
        lemma_split_join(dl);
        assert(no_newline(ls[ls.len() - 1]));
        lemma_split_append_line(join_lines(dl), ls.last());
        assert(dl.push(ls.last()) =~= ls);
    }
}

/// Joining the lines of a text gives the text back; there is always at least
/// one line, and none holds a line feed.
pub proof fn lemma_join_split(t: Seq<char>)
    ensures
        join_lines(split_lines(t)) == t,
        split_lines(t).len() >= 1,
        all_no_newline(split_lines(t)),
    decreases t.len(),
{
    if t.len() > 0 {
        let d = t.drop_last();
        lemma_join_split(d);
        let ls = split_lines(d);
        let c = t.last();
        if c == '\n' {
            let r = ls.push(Seq::<char>::empty());
            assert(r.drop_last() =~= ls);
            assert(t =~= d + seq!['\n'] + Seq::<char>::empty());
            assert forall|i: int| 0 <= i < r.len() implies no_newline(#[trigger] r[i]) by {
                if i < ls.len() {
                    assert(r[i] == ls[i]);
                }
            }
        } else {
            let r = ls.update(ls.len() - 1, ls.last().push(c));
            if ls.len() == 1 {
                assert(t =~= d.push(c));
            } else {
                assert(r.drop_last() =~= ls.drop_last());
                assert(d == join_lines(ls.drop_last()) + seq!['\n'] + ls.last());
                assert(t =~= d.push(c));
                assert(t =~= join_lines(ls.drop_last()) + seq!['\n'] + ls.last().push(c));
            }
            assert forall|i: int| 0 <= i < r.len() implies no_newline(#[trigger] r[i]) by {
                if i < ls.len() - 1 {
                    assert(r[i] == ls[i]);
                } else {
                    assert(no_newline(ls[ls.len() - 1]));
                }
            }
        }
    }
}

/// The characters of `s`, one by one.
pub fn chars_of(s: &str) -> (r: Vec<char>)
    ensures
        r@ == s@,
{
    let n = s.unicode_len();
    let mut r: Vec<char> = Vec::new();
    let mut i: usize = 0;
    while i < n
        invariant
            n == s@.len(),
            i <= n,
            r@ == s@.subrange(0, i as int),
        decreases n - i,
    {
        r.push(s.get_char(i));
        i += 1;
    }
    assert(r@ =~= s@);
    r
}

/// Relies on `String::push`: appends one character at the end.
#[verifier::external_body]
pub(crate) fn push_char(s: &mut String, c: char)
    ensures
        final(s)@ == old(s)@.push(c),
{
    s.push(c);
}

/// The string made of the characters of `v`.
pub fn string_of(v: &Vec<char>) -> (r: String)
    ensures
        r@ == v@,
{
    let mut r = String::new();
    let mut i: usize = 0;
    while i < v.len()
        invariant
            i <= v.len(),
            r@ == v@.subrange(0, i as int),
        decreases v.len() - i,
    {
        push_char(&mut r, v[i]);
        i += 1;
    }
    assert(r@ =~= v@);
    r
}

/// The lines of `t`, as character vectors.
pub fn split_text(t: &str) -> (r: Vec<Vec<char>>)
    ensures
        lines_view(r@) == split_lines(t@),
{
    let cs = chars_of(t);
    let mut done: Vec<Vec<char>> = Vec::new();
    let mut cur: Vec<char> = Vec::new();
    let mut i: usize = 0;
    proof {
        assert(cs@.subrange(0, 0) =~= Seq::<char>::empty());
        assert(lines_view(done@).push(cur@) =~= seq![Seq::<char>::empty()]);
    }
    while i < cs.len()
        invariant
            cs@ == t@,
            i <= cs.len(),
            lines_view(done@).push(cur@) == split_lines(cs@.subrange(0, i as int)),
        decreases cs.len() - i,
    {
        let c = cs[i];
        let ghost before = lines_view(done@).push(cur@);
        proof {
            let p = cs@.subrange(0, i as int + 1);
            assert(p.drop_last() =~= cs@.subrange(0, i as int));
            assert(p.last() == c);
        }
        if c == '\n' {
            let line = cur;
            done.push(line);
            cur = Vec::new();
            proof {
                assert(lines_view(done@).push(cur@) =~= before.push(Seq::<char>::empty()));
            }
        } else {
            cur.push(c);
            proof {
                assert(lines_view(done@).push(cur@) =~= before.update(
                    before.len() - 1,
                    before.last().push(c),
                ));
            }
        }
        i += 1;
    }
    proof {
        assert(cs@.subrange(0, cs@.len() as int) =~= cs@);
    }
    let ghost before = lines_view(done@).push(cur@);
    done.push(cur);
    proof {
        assert(lines_view(done@) =~= before);
    }
    done
}

} // verus!

verus! {

/// Whether `a` and `b` hold the same characters.
pub fn same_text(a: &str, b: &str) -> (r: bool)
    ensures
        r == (a@ == b@),
{
    let n = a.unicode_len();
    if n != b.unicode_len() {
        return false;
    }
    let mut i: usize = 0;
    while i < n
        invariant
            n == a@.len(),
            n == b@.len(),
            i <= n,
            forall|j: int| 0 <= j < i ==> a@[j] == b@[j],
        decreases n - i,
    {
        if a.get_char(i) != b.get_char(i) {
            return false;
        }
        i += 1;
    }
    proof {
        assert(a@ =~= b@);
    }
    true
}

} // verus!
