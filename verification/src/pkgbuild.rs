//! Reading and rewriting the `pkgver=` and `pkgrel=` lines of a PKGBUILD.
use vstd::prelude::*;

use crate::lines::{
    first_key_line, is_key_line, is_single_line, join_lines, join_lines_exec,
    lemma_first_key_line, lemma_first_key_line_unique, lemma_join_split, lemma_split_join,
    lemma_split_lines_shape, split_lines, split_lines_exec,
};
use crate::text::{chars_of, has_prefix, has_prefix_exec, string_of, trim, trim_bounds};

verus! {

/// What can go wrong with a PKGBUILD.
#[derive(Debug)]
pub enum Error {
    /// The PKGBUILD at `path` could not be read.
    Read { path: String, message: String },
    /// The PKGBUILD at `path` could not be written.
    Write { path: String, message: String },
    /// No line begins with `pkgver=`.
    MissingPkgver,
    /// No line begins with `pkgrel=`.
    MissingPkgrel,
}

/// The text `pkgver=`.
pub open spec fn pkgver_key() -> Seq<char> {
    seq!['p', 'k', 'g', 'v', 'e', 'r', '=']
}

/// The text `pkgrel=`.
pub open spec fn pkgrel_key() -> Seq<char> {
    seq!['p', 'k', 'g', 'r', 'e', 'l', '=']
}

/// The version that a PKGBUILD declares: the rest of the first line that consists of
/// `pkgver=` and at least one more character, trimmed.
pub open spec fn declared_pkgver(contents: Seq<char>) -> Option<Seq<char>> {
    let ls = split_lines(contents);
    match first_key_line(ls, pkgver_key(), 8) {
        Some(k) => Some(trim(ls[k].skip(7))),
        None => None,
    }
}

/// `contents` with its first line that begins with `key` replaced by `new_line`, or `None`
/// when no line begins with `key`.
pub open spec fn replace_key_line(contents: Seq<char>, key: Seq<char>, new_line: Seq<char>) -> Option<
    Seq<char>,
> {
    let ls = split_lines(contents);
    match first_key_line(ls, key, 0) {
        Some(k) => Some(join_lines(ls.update(k, new_line))),
        None => None,
    }
}

/// The PKGBUILD text after setting `pkgver` to `version` and, when `reset_pkgrel` holds,
/// `pkgrel` to `1`.
pub open spec fn updated_contents(contents: Seq<char>, version: Seq<char>, reset_pkgrel: bool) -> Result<
    Seq<char>,
    Error,
> {
    match replace_key_line(contents, pkgver_key(), pkgver_key() + version) {
        None => Err(Error::MissingPkgver),
        Some(updated) => if !reset_pkgrel {
            Ok(updated)
        } else {
            match replace_key_line(updated, pkgrel_key(), pkgrel_key() + seq!['1']) {
                None => Err(Error::MissingPkgrel),
                Some(reset) => Ok(reset),
            }
        },
    }
}

/// A PKGBUILD's text together with the version it declares.
#[derive(Debug, PartialEq, Eq)]
pub struct Pkgbuild {
    contents: String,
    pkgver: String,
}

impl View for Pkgbuild {
    type V = Seq<char>;

    /// The PKGBUILD's text.
    closed spec fn view(&self) -> Seq<char> {
        self.contents@
    }
}

fn pkgver_key_exec() -> (r: Vec<char>)
    ensures
        r@ == pkgver_key(),
{
    let r = vec!['p', 'k', 'g', 'v', 'e', 'r', '='];
    assert(r@ =~= pkgver_key());
    r
}

fn pkgrel_key_exec() -> (r: Vec<char>)
    ensures
        r@ == pkgrel_key(),
{
    let r = vec!['p', 'k', 'g', 'r', 'e', 'l', '='];
    assert(r@ =~= pkgrel_key());
    r
}

/// The index of the first line of `ls` that begins with `key` and holds at least `min_len`
/// characters.
fn find_key_line(ls: &Vec<Vec<char>>, key: &Vec<char>, min_len: usize) -> (r: Option<usize>)
    ensures
        match r {
            Some(k) => k < ls.len() && first_key_line(
                ls@.map_values(|l: Vec<char>| l@),
                key@,
                min_len as nat,
            ) == Some(k as int),
            None => first_key_line(ls@.map_values(|l: Vec<char>| l@), key@, min_len as nat) is None,
        },
{
    let ghost view = ls@.map_values(|l: Vec<char>| l@);
    let mut i: usize = 0;
    while i < ls.len()
        invariant
            i <= ls.len(),
            view == ls@.map_values(|l: Vec<char>| l@),
            forall|j: int| 0 <= j < i ==> !is_key_line(#[trigger] view[j], key@, min_len as nat),
        decreases ls.len() - i,
    {
        let line = &ls[i];
        assert(view[i as int] == line@);
        if line.len() >= min_len && has_prefix_exec(line, key) {
            proof {
                lemma_first_key_line_unique(view, key@, min_len as nat, i as int);
            }
            return Some(i);
        }
        i = i + 1;
    }
    proof {
        lemma_first_key_line(view, key@, min_len as nat);
        if let Some(k) = first_key_line(view, key@, min_len as nat) {
            assert(!is_key_line(view[k], key@, min_len as nat));
        }
    }
    None
}

/// `contents` with the first line that begins with `key` replaced by `key` followed by
/// `value`.
fn replace_key_line_exec(contents: &Vec<char>, key: &Vec<char>, value: &Vec<char>) -> (r: Option<
    String,
>)
    ensures
        match r {
            Some(s) => replace_key_line(contents@, key@, key@ + value@) == Some(s@),
            None => replace_key_line(contents@, key@, key@ + value@) is None,
        },
{
    let mut ls = split_lines_exec(contents);
    match find_key_line(&ls, key, 0) {
        None => None,
        Some(k) => {
            let mut line: Vec<char> = Vec::new();
            let mut i: usize = 0;
            while i < key.len()
                invariant
                    i <= key.len(),
                    line@ == key@.take(i as int),
                decreases key.len() - i,
            {
                line.push(key[i]);
                i = i + 1;
                assert(key@.take(i as int) =~= key@.take(i - 1).push(key@[i - 1]));
            }
            let mut j: usize = 0;
            while j < value.len()
                invariant
                    i == key.len(),
                    j <= value.len(),
                    line@ == key@ + value@.take(j as int),
                decreases value.len() - j,
            {
                line.push(value[j]);
                j = j + 1;
                assert(value@.take(j as int) =~= value@.take(j - 1).push(value@[j - 1]));
            }
            assert(key@.take(i as int) =~= key@);
            assert(value@.take(j as int) =~= value@);
            let ghost before = ls@;
            ls.set(k, line);
            assert(ls@.map_values(|l: Vec<char>| l@) =~= before.map_values(|l: Vec<char>| l@).update(
                k as int,
                key@ + value@,
            ));
            Some(join_lines_exec(&ls))
        },
    }
}

impl Clone for Pkgbuild {
    fn clone(&self) -> (r: Self)
        ensures
            r@ == self@,
    {
        proof {
            use_type_invariant(self);
        }
        Pkgbuild { contents: self.contents.clone(), pkgver: self.pkgver.clone() }
    }
}

impl Pkgbuild {
    /// The declared version is the one the text declares.
    #[verifier::type_invariant]
    spec fn declares(self) -> bool {
        declared_pkgver(self.contents@) == Some(self.pkgver@)
    }

    /// Reads the declared version out of a PKGBUILD's text; fails with `MissingPkgver` when no
    /// line of the form `pkgver=<value>` has a non-empty value.
    pub fn parse(contents: String) -> (r: Result<Self, Error>)
        ensures
            match r {
                Ok(p) => p@ == contents@ && declared_pkgver(contents@) is Some,
                Err(e) => e == Error::MissingPkgver && declared_pkgver(contents@) is None,
            },
    {
        match current_pkgver(&contents) {
            Ok(pkgver) => Ok(Pkgbuild { contents, pkgver }),
            Err(e) => Err(e),
        }
    }

    /// The declared version.
    pub fn pkgver(&self) -> (r: &str)
        ensures
            declared_pkgver(self@) == Some(r@),
    {
        proof {
            use_type_invariant(self);
        }
        self.pkgver.as_str()
    }

    /// The PKGBUILD's text with `pkgver` set to `version` and, when `reset_pkgrel` holds,
    /// `pkgrel` set to `1`. Only the first line that begins with `pkgver=` (and then the first
    /// that begins with `pkgrel=`) changes; the error says which of the two lines is missing.
    pub fn with_version(&self, version: &str, reset_pkgrel: bool) -> (r: Result<String, Error>)
        ensures
            match updated_contents(self@, version@, reset_pkgrel) {
                Ok(t) => r matches Ok(s) && s@ == t,
                Err(e) => r matches Err(f) && f == e,
            },
    {
        let contents = chars_of(self.contents.as_str());
        let value = chars_of(version);
        let key = pkgver_key_exec();
        match replace_key_line_exec(&contents, &key, &value) {
            None => Err(Error::MissingPkgver),
            Some(updated) => {
                if !reset_pkgrel {
                    return Ok(updated);
                }
                let updated_chars = chars_of(updated.as_str());
                let rel = pkgrel_key_exec();
                let one = vec!['1'];
                assert(one@ =~= seq!['1']);
                match replace_key_line_exec(&updated_chars, &rel, &one) {
                    None => Err(Error::MissingPkgrel),
                    Some(reset) => Ok(reset),
                }
            },
        }
    }
}

/// The version declared by the PKGBUILD text `contents`.
fn current_pkgver(contents: &String) -> (r: Result<String, Error>)
    ensures
        match declared_pkgver(contents@) {
            Some(v) => r matches Ok(s) && s@ == v,
            None => r matches Err(e) && e == Error::MissingPkgver,
        },
{
    let chars = chars_of(contents.as_str());
    let ls = split_lines_exec(&chars);
    let ghost view = ls@.map_values(|l: Vec<char>| l@);
    let key = pkgver_key_exec();
    match find_key_line(&ls, &key, 8) {
        None => Err(Error::MissingPkgver),
        Some(k) => {
            let line = &ls[k];
            assert(view[k as int] == line@);
            proof {
                lemma_first_key_line(view, pkgver_key(), 8);
            }
            let mut rest: Vec<char> = Vec::new();
            assert(rest@ =~= line@.subrange(7, 7));
            let mut i: usize = 7;
            while i < line.len()
                invariant
                    7 <= i <= line.len(),
                    rest@ == line@.subrange(7, i as int),
                decreases line.len() - i,
            {
                rest.push(line[i]);
                i = i + 1;
                assert(line@.subrange(7, i as int) =~= line@.subrange(7, i - 1).push(line@[i - 1]));
            }
            assert(line@.subrange(7, i as int) =~= line@.skip(7));
            let (lo, hi) = trim_bounds(&rest);
            Ok(string_of(&rest, lo, hi))
        },
    }
}

/// After a replacement, the lines of the result are the old lines with the first key line
/// replaced.
proof fn lemma_replaced_lines(contents: Seq<char>, key: Seq<char>, new_line: Seq<char>)
    requires
        is_single_line(new_line),
        first_key_line(split_lines(contents), key, 0) is Some,
    ensures
        replace_key_line(contents, key, new_line) == Some(
            join_lines(
                split_lines(contents).update(
                    first_key_line(split_lines(contents), key, 0)->0,
                    new_line,
                ),
            ),
        ),
        split_lines(replace_key_line(contents, key, new_line)->0) == split_lines(contents).update(
            first_key_line(split_lines(contents), key, 0)->0,
            new_line,
        ),
{
    let ls = split_lines(contents);
    lemma_split_lines_shape(contents);
    lemma_first_key_line(ls, key, 0);
    let k = first_key_line(ls, key, 0)->0;
    let u = ls.update(k, new_line);
    assert forall|i: int| 0 <= i < u.len() implies is_single_line(#[trigger] u[i]) by {
        if i != k {
            assert(u[i] == ls[i]);
        }
    }
    lemma_split_join(u);
}

proof fn lemma_key_then_value_single(key: Seq<char>, value: Seq<char>)
    requires
        is_single_line(key),
        is_single_line(value),
    ensures
        is_single_line(key + value),
{
    assert forall|i: int| 0 <= i < (key + value).len() implies #[trigger] (key + value)[i] != '\n' by {
        if i < key.len() {
            assert((key + value)[i] == key[i]);
        } else {
            assert((key + value)[i] == value[i - key.len()]);
        }
    }
}

/// A line that begins with `pkgrel=` does not begin with `pkgver=`, and the other way round.
proof fn lemma_keys_differ(line: Seq<char>)
    ensures
        !(has_prefix(line, pkgver_key()) && has_prefix(line, pkgrel_key())),
{
    if has_prefix(line, pkgver_key()) && has_prefix(line, pkgrel_key()) {
        assert(line.take(7)[3] == pkgver_key()[3]);
        assert(line.take(7)[3] == pkgrel_key()[3]);
    }
}

/// A PKGBUILD that declares a version always has a line that begins with `pkgver=`.
proof fn lemma_declared_has_key_line(contents: Seq<char>)
    requires
        declared_pkgver(contents) is Some,
    ensures
        first_key_line(split_lines(contents), pkgver_key(), 0) is Some,
{
    let ls = split_lines(contents);
    lemma_first_key_line(ls, pkgver_key(), 8);
    lemma_first_key_line(ls, pkgver_key(), 0);
    let k = first_key_line(ls, pkgver_key(), 8)->0;
    assert(is_key_line(ls[k], pkgver_key(), 0));
}

/// The updated text reads back the version written into it: when a PKGBUILD declares a
/// version, setting `pkgver` to a non-empty single-line `version` (with or without resetting
/// `pkgrel`) gives a text that declares `version`, trimmed; and without the `pkgrel` reset
/// the update always succeeds.
pub proof fn law_updated_declares_written_version(
    contents: Seq<char>,
    version: Seq<char>,
    reset_pkgrel: bool,
)
    requires
        declared_pkgver(contents) is Some,
        version.len() > 0,
        is_single_line(version),
    ensures
        !reset_pkgrel ==> updated_contents(contents, version, reset_pkgrel) is Ok,
        updated_contents(contents, version, reset_pkgrel) matches Ok(t) ==> declared_pkgver(t)
            == Some(trim(version)),
{
    let ls = split_lines(contents);
    lemma_declared_has_key_line(contents);
    lemma_first_key_line(ls, pkgver_key(), 0);
    let k = first_key_line(ls, pkgver_key(), 0)->0;
    let vline = pkgver_key() + version;
    assert(is_single_line(pkgver_key()));
    lemma_key_then_value_single(pkgver_key(), version);
    lemma_replaced_lines(contents, pkgver_key(), vline);
    let u = replace_key_line(contents, pkgver_key(), vline)->0;
    let lu = ls.update(k, vline);
    assert(vline.take(7) =~= pkgver_key());
    assert(vline.skip(7) =~= version);
    assert(is_key_line(lu[k], pkgver_key(), 8));
    if !reset_pkgrel {
        assert forall|j: int| 0 <= j < k implies !is_key_line(#[trigger] lu[j], pkgver_key(), 8) by {
            assert(lu[j] == ls[j]);
            assert(!is_key_line(ls[j], pkgver_key(), 0));
        }
        lemma_first_key_line_unique(lu, pkgver_key(), 8, k);
    } else {
        lemma_first_key_line(lu, pkgrel_key(), 0);
        if let Some(j) = first_key_line(lu, pkgrel_key(), 0) {
            let rline = pkgrel_key() + seq!['1'];
            assert(is_single_line(pkgrel_key()));
            assert(is_single_line(seq!['1']));
            lemma_key_then_value_single(pkgrel_key(), seq!['1']);
            lemma_replaced_lines(u, pkgrel_key(), rline);
            lemma_keys_differ(lu[k]);
            assert(j != k);
            let lw = lu.update(j, rline);
            assert(rline.take(7) =~= pkgrel_key());
            assert forall|i: int| 0 <= i < k implies !is_key_line(#[trigger] lw[i], pkgver_key(), 8) by {
                if i == j {
                    lemma_keys_differ(rline);
                } else {
                    assert(lw[i] == ls[i]);
                    assert(!is_key_line(ls[i], pkgver_key(), 0));
                }
            }
            assert(lw[k] == vline);
            lemma_first_key_line_unique(lw, pkgver_key(), 8, k);
        }
    }
}

/// Setting `pkgver` without resetting `pkgrel` touches one line only: when line `k` is the
/// first line that begins with `pkgver=`, the updated text has the same lines, except that
/// line `k` becomes `pkgver=` followed by the (single-line) version; with `pkgrel` reset as
/// well, the first line that begins with `pkgrel=` (line `m`) becomes `pkgrel=1` too.
pub proof fn law_update_rewrites_only_key_lines(
    contents: Seq<char>,
    version: Seq<char>,
    reset_pkgrel: bool,
    k: int,
    m: int,
)
    requires
        0 <= k < split_lines(contents).len(),
        has_prefix(split_lines(contents)[k], pkgver_key()),
        forall|j: int| 0 <= j < k ==> !has_prefix(#[trigger] split_lines(contents)[j], pkgver_key()),
        is_single_line(version),
        reset_pkgrel ==> 0 <= m < split_lines(contents).len(),
        reset_pkgrel ==> has_prefix(split_lines(contents)[m], pkgrel_key()),
        reset_pkgrel ==> forall|j: int|
            0 <= j < m ==> !has_prefix(#[trigger] split_lines(contents)[j], pkgrel_key()),
    ensures
        updated_contents(contents, version, reset_pkgrel) matches Ok(t) && {
            let before = split_lines(contents);
            let after = split_lines(t);
            &&& after.len() == before.len()
            &&& after[k] == pkgver_key() + version
            &&& reset_pkgrel ==> after[m] == pkgrel_key() + seq!['1']
            &&& forall|j: int|
                0 <= j < before.len() && j != k && (!reset_pkgrel || j != m) ==> #[trigger] after[j]
                    == before[j]
        },
{
    let ls = split_lines(contents);
    assert forall|j: int| 0 <= j < k implies !is_key_line(#[trigger] ls[j], pkgver_key(), 0) by {}
    lemma_first_key_line_unique(ls, pkgver_key(), 0, k);
    let vline = pkgver_key() + version;
    assert(is_single_line(pkgver_key()));
    lemma_key_then_value_single(pkgver_key(), version);
    lemma_replaced_lines(contents, pkgver_key(), vline);
    let u = replace_key_line(contents, pkgver_key(), vline)->0;
    let lu = ls.update(k, vline);
    if reset_pkgrel {
        lemma_keys_differ(ls[k]);
        lemma_keys_differ(vline);
        assert(vline.take(7) =~= pkgver_key());
        assert(m != k);
        assert(lu[m] == ls[m]);
        assert forall|j: int| 0 <= j < m implies !is_key_line(#[trigger] lu[j], pkgrel_key(), 0) by {
            if j != k {
                assert(lu[j] == ls[j]);
            }
        }
        lemma_first_key_line_unique(lu, pkgrel_key(), 0, m);
        let rline = pkgrel_key() + seq!['1'];
        assert(is_single_line(pkgrel_key()));
        assert(is_single_line(seq!['1']));
        lemma_key_then_value_single(pkgrel_key(), seq!['1']);
        lemma_replaced_lines(u, pkgrel_key(), rline);
    }
}

/// Writing the same version a second time changes nothing: once a single-line `version` has
/// been written, writing it again (with the same `pkgrel` choice) gives the same text.
pub proof fn law_update_is_idempotent(contents: Seq<char>, version: Seq<char>, reset_pkgrel: bool)
    requires
        is_single_line(version),
        updated_contents(contents, version, reset_pkgrel) is Ok,
    ensures
        updated_contents(updated_contents(contents, version, reset_pkgrel)->Ok_0, version, reset_pkgrel)
            == updated_contents(contents, version, reset_pkgrel),
{
    let ls = split_lines(contents);
    lemma_first_key_line(ls, pkgver_key(), 0);
    let k = first_key_line(ls, pkgver_key(), 0)->0;
    let vline = pkgver_key() + version;
    assert(is_single_line(pkgver_key()));
    lemma_key_then_value_single(pkgver_key(), version);
    lemma_replaced_lines(contents, pkgver_key(), vline);
    let u = replace_key_line(contents, pkgver_key(), vline)->0;
    let lu = ls.update(k, vline);
    assert(vline.take(7) =~= pkgver_key());
    lemma_split_lines_shape(u);
    if !reset_pkgrel {
        assert forall|j: int| 0 <= j < k implies !is_key_line(#[trigger] lu[j], pkgver_key(), 0) by {
            assert(lu[j] == ls[j]);
        }
        lemma_first_key_line_unique(lu, pkgver_key(), 0, k);
        lemma_replaced_lines(u, pkgver_key(), vline);
        assert(lu.update(k, vline) =~= lu);
        lemma_join_split(u);
    } else {
        lemma_first_key_line(lu, pkgrel_key(), 0);
        let j = first_key_line(lu, pkgrel_key(), 0)->0;
        let rline = pkgrel_key() + seq!['1'];
        assert(is_single_line(pkgrel_key()));
        assert(is_single_line(seq!['1']));
        lemma_key_then_value_single(pkgrel_key(), seq!['1']);
        lemma_replaced_lines(u, pkgrel_key(), rline);
        let w = replace_key_line(u, pkgrel_key(), rline)->0;
        lemma_keys_differ(lu[k]);
        let lw = lu.update(j, rline);
        assert(rline.take(7) =~= pkgrel_key());
        assert forall|i: int| 0 <= i < k implies !is_key_line(#[trigger] lw[i], pkgver_key(), 0) by {
            if i == j {
                lemma_keys_differ(rline);
            } else {
                assert(lw[i] == ls[i]);
            }
        }
        lemma_first_key_line_unique(lw, pkgver_key(), 0, k);
        lemma_replaced_lines(w, pkgver_key(), vline);
        assert(lw.update(k, vline) =~= lw);
        lemma_join_split(w);
        lemma_split_lines_shape(w);
        assert forall|i: int| 0 <= i < j implies !is_key_line(#[trigger] lw[i], pkgrel_key(), 0) by {
            assert(lw[i] == lu[i]);
        }
        lemma_first_key_line_unique(lw, pkgrel_key(), 0, j);
        lemma_replaced_lines(w, pkgrel_key(), rline);
        assert(lw.update(j, rline) =~= lw);
    }
}

} // verus!
