//! Text as a sequence of lines separated by `'\n'`: splitting text into its lines, joining
//! lines back into text, and finding the first line that begins with a key.
use vstd::prelude::*;

use crate::text::has_prefix;

verus! {

/// The lines of `s`: the pieces between `'\n'` characters. There is always at least one
/// (possibly empty) line; a trailing `'\n'` ends with an empty last line.
pub open spec fn split_lines(s: Seq<char>) -> Seq<Seq<char>>
    decreases s.len(),
{
    if s.len() == 0 {
        seq![Seq::<char>::empty()]
    } else {
        let ls = split_lines(s.drop_last());
        if s.last() == '\n' {
            ls.push(Seq::<char>::empty())
        } else {
            ls.update(ls.len() - 1, ls.last().push(s.last()))
        }
    }
}

/// The lines `ls` put back together with a `'\n'` between each two of them.
pub open spec fn join_lines(ls: Seq<Seq<char>>) -> Seq<char>
    decreases ls.len(),
{
    if ls.len() == 0 {
        Seq::<char>::empty()
    } else if ls.len() == 1 {
        ls[0]
    } else {
        join_lines(ls.drop_last()) + seq!['\n'] + ls.last()
    }
}

/// `line` holds no `'\n'`.
pub open spec fn is_single_line(line: Seq<char>) -> bool {
    forall|i: int| 0 <= i < line.len() ==> #[trigger] line[i] != '\n'
}

/// Every line of `ls` holds no `'\n'`.
pub open spec fn all_single_lines(ls: Seq<Seq<char>>) -> bool {
    forall|i: int| 0 <= i < ls.len() ==> is_single_line(#[trigger] ls[i])
}

/// `line` begins with `key` and is at least `min_len` characters long.
pub open spec fn is_key_line(line: Seq<char>, key: Seq<char>, min_len: nat) -> bool {
    has_prefix(line, key) && line.len() >= min_len
}

/// The index of the first line at or after `from` that is a key line.
pub open spec fn first_key_line_from(
    ls: Seq<Seq<char>>,
    key: Seq<char>,
    min_len: nat,
    from: int,
) -> Option<int>
    decreases ls.len() - from,
{
    if from < 0 || from >= ls.len() {
        None
    } else if is_key_line(ls[from], key, min_len) {
        Some(from)
    } else {
        first_key_line_from(ls, key, min_len, from + 1)
    }
}

/// The index of the first line of `ls` that begins with `key` and is at least `min_len`
/// characters long.
pub open spec fn first_key_line(ls: Seq<Seq<char>>, key: Seq<char>, min_len: nat) -> Option<int> {
    first_key_line_from(ls, key, min_len, 0)
}

proof fn lemma_first_key_line_from(ls: Seq<Seq<char>>, key: Seq<char>, min_len: nat, from: int)
    requires
        0 <= from,
    ensures
        match first_key_line_from(ls, key, min_len, from) {
            Some(k) => {
                &&& from <= k < ls.len()
                &&& is_key_line(ls[k], key, min_len)
                &&& forall|j: int| from <= j < k ==> !is_key_line(#[trigger] ls[j], key, min_len)
            },
            None => forall|j: int|
                from <= j < ls.len() ==> !is_key_line(#[trigger] ls[j], key, min_len),
        },
    decreases ls.len() - from,
{
    if from < ls.len() && !is_key_line(ls[from], key, min_len) {
        lemma_first_key_line_from(ls, key, min_len, from + 1);
    }
}

/// `first_key_line` picks the first key line, and is `None` when there is none.
pub proof fn lemma_first_key_line(ls: Seq<Seq<char>>, key: Seq<char>, min_len: nat)
    ensures
        match first_key_line(ls, key, min_len) {
            Some(k) => {
                &&& 0 <= k < ls.len()
                &&& is_key_line(ls[k], key, min_len)
                &&& forall|j: int| 0 <= j < k ==> !is_key_line(#[trigger] ls[j], key, min_len)
            },
            None => forall|j: int|
                0 <= j < ls.len() ==> !is_key_line(#[trigger] ls[j], key, min_len),
        },
{
    lemma_first_key_line_from(ls, key, min_len, 0);
}

/// A line index that is a key line and follows no other key line is the one that
/// `first_key_line` gives.
pub proof fn lemma_first_key_line_unique(ls: Seq<Seq<char>>, key: Seq<char>, min_len: nat, k: int)
    requires
        0 <= k < ls.len(),
        is_key_line(ls[k], key, min_len),
        forall|j: int| 0 <= j < k ==> !is_key_line(#[trigger] ls[j], key, min_len),
    ensures
        first_key_line(ls, key, min_len) == Some(k),
{
    lemma_first_key_line(ls, key, min_len);
    match first_key_line(ls, key, min_len) {
        Some(k2) => {
            if k2 < k {
                assert(!is_key_line(ls[k2], key, min_len));
            }
            if k < k2 {
                assert(!is_key_line(ls[k], key, min_len));
            }
        },
        None => {
            assert(!is_key_line(ls[k], key, min_len));
        },
    }
}

/// `split_lines` always gives at least one line, none of which holds a `'\n'`.
pub proof fn lemma_split_lines_shape(s: Seq<char>)
    ensures
        split_lines(s).len() >= 1,
        all_single_lines(split_lines(s)),
    decreases s.len(),
{
    if s.len() > 0 {
        lemma_split_lines_shape(s.drop_last());
        let ls = split_lines(s.drop_last());
        if s.last() != '\n' {
            let l = ls.last().push(s.last());
            assert(is_single_line(ls[ls.len() - 1]));
            assert forall|i: int| 0 <= i < l.len() implies #[trigger] l[i] != '\n' by {
                if i < l.len() - 1 {
                    assert(l[i] == ls[ls.len() - 1][i]);
                }
            }
            let r = split_lines(s);
            assert forall|i: int| 0 <= i < r.len() implies is_single_line(#[trigger] r[i]) by {
                if i < r.len() - 1 {
                    assert(r[i] == ls[i]);
                }
            }
        } else {
            let r = split_lines(s);
            assert forall|i: int| 0 <= i < r.len() implies is_single_line(#[trigger] r[i]) by {
                if i < r.len() - 1 {
                    assert(r[i] == ls[i]);
                }
            }
        }
    }
}

/// Appending `c` to the last of several lines appends it to their join.
proof fn lemma_join_extend_last(ls: Seq<Seq<char>>, c: char)
    requires
        ls.len() >= 1,
    ensures
        join_lines(ls.update(ls.len() - 1, ls.last().push(c))) == join_lines(ls).push(c),
{
    let u = ls.update(ls.len() - 1, ls.last().push(c));
    if ls.len() > 1 {
        assert(u.drop_last() =~= ls.drop_last());
        assert(join_lines(u) =~= join_lines(ls).push(c));
    }
}

/// Putting the lines of `s` back together gives `s`.
pub proof fn lemma_join_split(s: Seq<char>)
    ensures
        join_lines(split_lines(s)) == s,
    decreases s.len(),
{
    if s.len() > 0 {
        let p = s.drop_last();
        lemma_join_split(p);
        lemma_split_lines_shape(p);
        let ls = split_lines(p);
        if s.last() == '\n' {
            let r = ls.push(Seq::<char>::empty());
            assert(r.drop_last() =~= ls);
            assert(join_lines(r) =~= s);
        } else {
            lemma_join_extend_last(ls, s.last());
            assert(p.push(s.last()) =~= s);
        }
    } else {
        assert(join_lines(seq![Seq::<char>::empty()]) =~= s);
    }
}

/// Appending a piece without `'\n'` extends the last line.
proof fn lemma_split_append_single(a: Seq<char>, b: Seq<char>)
    requires
        is_single_line(b),
    ensures
        split_lines(a + b) == split_lines(a).update(
            split_lines(a).len() - 1,
            split_lines(a).last() + b,
        ),
    decreases b.len(),
{
    lemma_split_lines_shape(a);
    let ls = split_lines(a);
    if b.len() == 0 {
        assert(a + b =~= a);
        assert(ls.last() + b =~= ls.last());
        assert(ls.update(ls.len() - 1, ls.last()) =~= ls);
    } else {
        let b0 = b.drop_last();
        assert forall|i: int| 0 <= i < b0.len() implies #[trigger] b0[i] != '\n' by {
            assert(b0[i] == b[i]);
        }
        lemma_split_append_single(a, b0);
        assert((a + b).drop_last() =~= a + b0);
        assert((a + b).last() == b.last());
        assert(b[b.len() - 1] != '\n');
        let m = split_lines(a + b0);
        assert(m.len() == ls.len());
        assert(m.last() == ls.last() + b0);
        assert((ls.last() + b0).push(b.last()) =~= ls.last() + b);
        assert(m.update(m.len() - 1, m.last().push(b.last())) =~= ls.update(
            ls.len() - 1,
            ls.last() + b,
        ));
    }
}

/// Splitting lines that hold no `'\n'` after joining them gives them back.
pub proof fn lemma_split_join(ls: Seq<Seq<char>>)
    requires
        ls.len() >= 1,
        all_single_lines(ls),
    ensures
        split_lines(join_lines(ls)) == ls,
    decreases ls.len(),
{
    if ls.len() == 1 {
        assert(is_single_line(ls[0]));
        lemma_split_append_single(Seq::<char>::empty(), ls[0]);
        assert(Seq::<char>::empty() + ls[0] =~= ls[0]);
        assert(seq![Seq::<char>::empty()].update(0, Seq::<char>::empty() + ls[0]) =~= ls);
    } else {
        let init = ls.drop_last();
        assert forall|i: int| 0 <= i < init.len() implies is_single_line(#[trigger] init[i]) by {
            assert(init[i] == ls[i]);
        }
        lemma_split_join(init);
        let a = join_lines(init) + seq!['\n'];
        assert(a.drop_last() =~= join_lines(init));
        assert(split_lines(a) =~= init.push(Seq::<char>::empty()));
        assert(is_single_line(ls[ls.len() - 1]));
        lemma_split_append_single(a, ls.last());
        assert(Seq::<char>::empty() + ls.last() =~= ls.last());
        assert(init.push(Seq::<char>::empty()).update(init.len() as int, ls.last()) =~= ls);
    }
}

/// The lines of `s`, as vectors of characters.
pub fn split_lines_exec(s: &Vec<char>) -> (r: Vec<Vec<char>>)
    ensures
        r@.map_values(|l: Vec<char>| l@) == split_lines(s@),
{
    let mut lines: Vec<Vec<char>> = Vec::new();
    let mut cur: Vec<char> = Vec::new();
    let mut i: usize = 0;
    assert(s@.take(0) =~= Seq::<char>::empty());
    assert(lines@.map_values(|l: Vec<char>| l@).push(cur@) =~= split_lines(s@.take(0)));
    while i < s.len()
        invariant
            i <= s.len(),
            lines@.map_values(|l: Vec<char>| l@).push(cur@) == split_lines(s@.take(i as int)),
        decreases s.len() - i,
    {
        let c = s[i];
        let ghost before = split_lines(s@.take(i as int));
        assert(s@.take(i + 1).drop_last() =~= s@.take(i as int));
        assert(s@.take(i + 1).last() == c);
        if c == '\n' {
            let done = cur;
            lines.push(done);
            cur = Vec::new();
            assert(lines@.map_values(|l: Vec<char>| l@).push(cur@) =~= before.push(
                Seq::<char>::empty(),
            ));
        } else {
            cur.push(c);
            assert(lines@.map_values(|l: Vec<char>| l@).push(cur@) =~= before.update(
                before.len() - 1,
                before.last().push(c),
            ));
        }
        i = i + 1;
    }
    lines.push(cur);
    assert(s@.take(i as int) =~= s@);
    lines
}

/// The lines `ls` joined with `'\n'` between each two of them.
pub fn join_lines_exec(ls: &Vec<Vec<char>>) -> (r: String)
    ensures
        r@ == join_lines(ls@.map_values(|l: Vec<char>| l@)),
{
    let ghost view = ls@.map_values(|l: Vec<char>| l@);
    let mut out = String::new();
    let mut i: usize = 0;
    assert(view.take(0) =~= Seq::<Seq<char>>::empty());
    while i < ls.len()
        invariant
            i <= ls.len(),
            view == ls@.map_values(|l: Vec<char>| l@),
            out@ == join_lines(view.take(i as int)),
        decreases ls.len() - i,
    {
        let ghost before = out@;
        if i > 0 {
            crate::text::push_char(&mut out, '\n');
        }
        crate::text::push_chars(&mut out, &ls[i], 0, ls[i].len());
        assert(ls[i as int]@.subrange(0, ls[i as int]@.len() as int) =~= ls[i as int]@);
        let ghost next = view.take(i + 1);
        assert(next.drop_last() =~= view.take(i as int));
        assert(next.last() == ls[i as int]@);
        assert(out@ =~= join_lines(next));
        i = i + 1;
    }
    assert(view.take(i as int) =~= view);
    out
}

} // verus!
