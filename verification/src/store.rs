//! Naming rules of the script store: which names may become script files,
//! which directory entries count as scripts (or extracted video frames),
//! and the order in which they are listed.

use vstd::prelude::*;
use vstd::relations::*;
use crate::text::chars_of;

verus! {

broadcast use vstd::seq_lib::group_to_multiset_ensures;

// ---------------------------------------------------------------------------
// Script file names
// ---------------------------------------------------------------------------

/// `s` contains the character `c`.
pub open spec fn has_char(s: Seq<char>, c: char) -> bool {
    exists|i: int| 0 <= i < s.len() && s[i] == c
}

/// `s` contains two consecutive dots.
pub open spec fn has_dot_dot(s: Seq<char>) -> bool {
    exists|i: int| 0 <= i < s.len() - 1 && #[trigger] s[i] == '.' && s[i + 1] == '.'
}

/// `s` starts with a Windows drive prefix: an ASCII letter and `:` (as in
/// `C:x`), which makes a joined path leave its base folder.
pub open spec fn drive_prefixed(s: Seq<char>) -> bool {
    s.len() >= 2 && s[1] == ':' && (('a' <= s[0] && s[0] <= 'z') || ('A' <= s[0] && s[0] <= 'Z'))
}

/// A script name is accepted when it is non-empty and holds no path
/// separator (`/` or `\`), no `..`, and does not start with a drive
/// prefix.
pub open spec fn name_allowed(s: Seq<char>) -> bool {
    s.len() > 0 && !has_char(s, '/') && !has_char(s, '\\') && !has_dot_dot(s) && !drive_prefixed(s)
}

/// The script file extension, dot included.
pub open spec fn ax_suffix() -> Seq<char> {
    seq!['.', 'a', 'x']
}

/// `s` ends with `suffix`.
pub open spec fn ends_with(s: Seq<char>, suffix: Seq<char>) -> bool {
    suffix.len() <= s.len() && s.skip(s.len() - suffix.len()) == suffix
}

/// The file name a script is stored under: the name itself when it already
/// ends in `.ax`, otherwise the name with `.ax` appended.
pub open spec fn script_file_name(s: Seq<char>) -> Seq<char> {
    if ends_with(s, ax_suffix()) {
        s
    } else {
        s + ax_suffix()
    }
}

/// The error text for a refused script name.
pub open spec fn bad_name_message() -> Seq<char> {
    "недопустимое имя скрипта"@
}

fn contains_forbidden(cs: &Vec<char>) -> (b: bool)
    ensures
        b == (has_char(cs@, '/') || has_char(cs@, '\\') || has_dot_dot(cs@) || drive_prefixed(cs@)),
{
    let n = cs.len();
    if n >= 2 && cs[1] == ':' && (('a' <= cs[0] && cs[0] <= 'z') || ('A' <= cs[0] && cs[0] <= 'Z')) {
        return true;
    }
    for i in 0..n
        invariant
            n == cs@.len(),
            !drive_prefixed(cs@),
            forall|j: int| 0 <= j < i ==> cs@[j] != '/' && cs@[j] != '\\',
            forall|j: int| 0 <= j < i && j + 1 < n ==> !(#[trigger] cs@[j] == '.' && cs@[j + 1] == '.'),
    {
        let c = cs[i];
        if c == '/' || c == '\\' {
            return true;
        }
        if c == '.' && i + 1 < n && cs[i + 1] == '.' {
            return true;
        }
    }
    false
}

/// Keeps a script's file name inside the scripts folder: refuses an empty
/// name, one with `/`, `\` or `..`, or one starting with a drive prefix
/// such as `C:`, and otherwise appends `.ax` unless the
/// name already ends with it.
pub fn safe_name(name: &str) -> (r: Result<String, String>)
    ensures
        r is Ok <==> name_allowed(name@),
        r matches Ok(n) ==> n@ == script_file_name(name@),
        r matches Err(e) ==> e@ == bad_name_message(),
{
    let cs = chars_of(name);
    if cs.len() == 0 || contains_forbidden(&cs) {
        return Err(String::from_str("недопустимое имя скрипта"));
    }
    let n = cs.len();
    let ends_ax = n >= 3 && cs[n - 3] == '.' && cs[n - 2] == 'a' && cs[n - 1] == 'x';
    proof {
        if ends_ax {
            assert(name@.skip(n - 3) =~= ax_suffix());
        } else if 3 <= n {
            assert(name@.skip(n - 3)[0] == name@[n - 3]);
            assert(name@.skip(n - 3)[1] == name@[n - 2]);
            assert(name@.skip(n - 3)[2] == name@[n - 1]);
        }
    }
    if ends_ax {
        Ok(String::from_str(name))
    } else {
        let mut out = String::from_str(name);
        out.append(".ax");
        proof {
            reveal_strlit(".ax");
            assert(".ax"@ =~= ax_suffix());
        }
        Ok(out)
    }
}

/// A name that `safe_name` accepts becomes a file name that holds no path
/// separator (`/`, `\`), has no drive prefix such as `C:`, and is neither
/// `.` nor `..`: a single plain component, which joined to the scripts
/// folder names a file directly inside it.
pub proof fn lemma_safe_name_stays_in_folder(name: Seq<char>)
    requires
        name_allowed(name),
    ensures
        !has_char(script_file_name(name), '/'),
        !has_char(script_file_name(name), '\\'),
        !drive_prefixed(script_file_name(name)),
        script_file_name(name) != seq!['.'],
        script_file_name(name) != seq!['.', '.'],
{
    let f = script_file_name(name);
    if !ends_with(name, ax_suffix()) {
        assert forall|i: int| 0 <= i < f.len() implies f[i] != '/' && f[i] != '\\' by {
            if i < name.len() {
                assert(f[i] == name[i]);
            }
        }
        assert(f.len() >= 4);
        if name.len() >= 2 {
            assert(f[0] == name[0] && f[1] == name[1]);
        } else {
            assert(f[1] == '.');
        }
    }
    if f == seq!['.', '.'] {
        assert(f[0] == '.' && f[1] == '.');
        assert(ends_with(name, ax_suffix()) ==> f.len() >= 3);
        assert(name =~= f);
        assert(has_dot_dot(name));
    }
    if f == seq!['.'] {
        assert(ends_with(name, ax_suffix()) ==> f.len() >= 3);
    }
}

/// Accepting a name twice changes nothing: the stored file name of a name
/// that does not end in `.` is itself an accepted name with the same file
/// name.
pub proof fn lemma_safe_name_idempotent(name: Seq<char>)
    requires
        name_allowed(name),
        name.last() != '.',
    ensures
        name_allowed(script_file_name(name)),
        script_file_name(script_file_name(name)) == script_file_name(name),
{
    let f = script_file_name(name);
    if !ends_with(name, ax_suffix()) {
        let n = name.len();
        assert(f.skip(f.len() - 3) =~= ax_suffix());
        assert forall|i: int| 0 <= i < f.len() implies f[i] != '/' && f[i] != '\\' by {
            if i < n {
                assert(f[i] == name[i]);
            }
        }
        assert(has_char(f, '/') ==> has_char(name, '/'));
        assert(has_char(f, '\\') ==> has_char(name, '\\'));
        if n >= 2 {
            assert(f[0] == name[0] && f[1] == name[1]);
        } else {
            assert(f[1] == '.');
        }
        assert forall|i: int| 0 <= i < f.len() - 1 implies !(#[trigger] f[i] == '.' && f[i + 1] == '.') by {
            if i + 1 < n {
                assert(f[i] == name[i] && f[i + 1] == name[i + 1]);
            } else if i + 1 == n {
                assert(f[i] == name[n - 1]);
            } else {
                assert(f[i + 1] == ax_suffix()[i + 1 - n]);
            }
        }
    }
}

// ---------------------------------------------------------------------------
// File extensions and listings
// ---------------------------------------------------------------------------

/// Index of the last `.` in `s`, or -1 when there is none.
pub open spec fn last_dot(s: Seq<char>) -> int
    decreases s.len(),
{
    if s.len() == 0 {
        -1
    } else if s.last() == '.' {
        s.len() - 1
    } else {
        last_dot(s.drop_last())
    }
}

/// The extension of a file name as `Path::extension` gives it: the part
/// after the last dot, provided that dot is not the first character and the
/// name is not `..`.
pub open spec fn path_extension(s: Seq<char>) -> Option<Seq<char>> {
    if s == seq!['.', '.'] {
        None
    } else if last_dot(s) <= 0 {
        None
    } else {
        Some(s.skip(last_dot(s) + 1))
    }
}

proof fn lemma_last_dot_facts(s: Seq<char>)
    ensures
        -1 <= last_dot(s) < s.len(),
        last_dot(s) >= 0 ==> s[last_dot(s)] == '.',
        forall|j: int| last_dot(s) < j < s.len() ==> s[j] != '.',
    decreases s.len(),
{
    if s.len() > 0 && s.last() != '.' {
        lemma_last_dot_facts(s.drop_last());
        assert forall|j: int| last_dot(s) < j < s.len() implies s[j] != '.' by {
            if j < s.len() - 1 {
                assert(s.drop_last()[j] == s[j]);
            }
        }
    }
}

/// Whether the file name `name` has extension `ext` (`Path::extension`).
pub fn has_extension(name: &Vec<char>, ext: &Vec<char>) -> (b: bool)
    ensures
        b == (path_extension(name@) == Some(ext@)),
{
    let n = name.len();
    if n == 2 && name[0] == '.' && name[1] == '.' {
        proof {
            assert(name@ =~= seq!['.', '.']);
        }
        return false;
    }
    proof {
        assert(name@ != seq!['.', '.']) by {
            if name@ == seq!['.', '.'] {
                assert(name@.len() == 2 && name@[0] == '.' && name@[1] == '.');
            }
        }
    }
    // Find the last dot, scanning from the end.
    let mut k: usize = n;
    proof {
        assert(name@.take(n as int) =~= name@);
    }
    while k > 0 && name[k - 1] != '.'
        invariant
            k <= n,
            n == name@.len(),
            last_dot(name@) == last_dot(name@.take(k as int)),
        decreases k,
    {
        proof {
            assert(name@.take(k as int).drop_last() =~= name@.take(k - 1));
        }
        k = k - 1;
    }
    proof {
        if k > 0 {
            assert(name@.take(k as int).last() == '.');
        } else {
            assert(name@.take(0) =~= Seq::<char>::empty());
        }
    }
    // Here last_dot == k - 1 (or -1 when k == 0).
    if k <= 1 {
        return false;
    }
    let start = k;
    proof {
        assert(last_dot(name@) == start - 1);
        assert(path_extension(name@) == Some(name@.skip(start as int)));
    }
    if n - start != ext.len() {
        proof {
            assert(name@.skip(start as int).len() != ext@.len());
        }
        return false;
    }
    for i in 0..ext.len()
        invariant
            start + ext@.len() == n,
            n == name@.len(),
            path_extension(name@) == Some(name@.skip(start as int)),
            forall|j: int| 0 <= j < i ==> name@[start + j] == ext@[j],
    {
        if name[start + i] != ext[i] {
            proof {
                assert(name@.skip(start as int)[i as int] != ext@[i as int]);
            }
            return false;
        }
    }
    proof {
        assert(name@.skip(start as int) =~= ext@);
    }
    true
}

/// Lexicographic order of character sequences; for strings it is the order
/// of their UTF-8 bytes, which `sort` on strings and paths of one folder
/// uses.
pub open spec fn lex_le(a: Seq<char>, b: Seq<char>) -> bool
    decreases a.len(),
{
    if a.len() == 0 {
        true
    } else if b.len() == 0 {
        false
    } else if a[0] != b[0] {
        a[0] < b[0]
    } else {
        lex_le(a.drop_first(), b.drop_first())
    }
}

/// `lex_le` as a relation value.
pub open spec fn lex_order() -> spec_fn(Seq<char>, Seq<char>) -> bool {
    |a: Seq<char>, b: Seq<char>| lex_le(a, b)
}

proof fn lemma_lex_total(a: Seq<char>, b: Seq<char>)
    ensures
        lex_le(a, b) || lex_le(b, a),
    decreases a.len(),
{
    if a.len() > 0 && b.len() > 0 && a[0] == b[0] {
        lemma_lex_total(a.drop_first(), b.drop_first());
    }
}

proof fn lemma_lex_antisym(a: Seq<char>, b: Seq<char>)
    requires
        lex_le(a, b),
        lex_le(b, a),
    ensures
        a == b,
    decreases a.len(),
{
    if a.len() == 0 {
        assert(b.len() == 0);
        assert(a =~= b);
    } else {
        lemma_lex_antisym(a.drop_first(), b.drop_first());
        assert(a =~= seq![a[0]] + a.drop_first());
        assert(b =~= seq![b[0]] + b.drop_first());
    }
}

proof fn lemma_lex_trans(a: Seq<char>, b: Seq<char>, c: Seq<char>)
    requires
        lex_le(a, b),
        lex_le(b, c),
    ensures
        lex_le(a, c),
    decreases a.len(),
{
    if a.len() > 0 && b.len() > 0 && c.len() > 0 && a[0] == b[0] && b[0] == c[0] {
        lemma_lex_trans(a.drop_first(), b.drop_first(), c.drop_first());
    }
}

proof fn lemma_lex_refl(a: Seq<char>)
    ensures
        lex_le(a, a),
    decreases a.len(),
{
    if a.len() > 0 {
        lemma_lex_refl(a.drop_first());
    }
}

/// `lex_le` is a total order.
pub proof fn lemma_lex_total_ordering()
    ensures
        total_ordering(lex_order()),
{
    assert forall|a: Seq<char>| #[trigger] lex_order()(a, a) by {
        lemma_lex_refl(a);
    }
    assert forall|a: Seq<char>, b: Seq<char>| #[trigger] lex_order()(a, b) && #[trigger] lex_order()(b, a) implies a == b by {
        lemma_lex_antisym(a, b);
    }
    assert forall|a: Seq<char>, b: Seq<char>, c: Seq<char>| #[trigger] lex_order()(a, b) && #[trigger] lex_order()(b, c) implies lex_order()(a, c) by {
        lemma_lex_trans(a, b, c);
    }
    assert forall|a: Seq<char>, b: Seq<char>| #[trigger] lex_order()(a, b) || #[trigger] lex_order()(b, a) by {
        lemma_lex_total(a, b);
    }
}

fn lex_le_exec(a: &Vec<char>, b: &Vec<char>) -> (r: bool)
    ensures
        r == lex_le(a@, b@),
{
    let mut i: usize = 0;
    proof {
        assert(a@.skip(0) =~= a@);
        assert(b@.skip(0) =~= b@);
    }
    while i < a.len() && i < b.len() && a[i] == b[i]
        invariant
            i <= a.len(),
            i <= b.len(),
            lex_le(a@, b@) == lex_le(a@.skip(i as int), b@.skip(i as int)),
        decreases a.len() - i,
    {
        proof {
            assert(a@.skip(i as int).drop_first() =~= a@.skip(i + 1));
            assert(b@.skip(i as int).drop_first() =~= b@.skip(i + 1));
        }
        i = i + 1;
    }
    if i == a.len() {
        true
    } else if i == b.len() {
        false
    } else {
        a[i] < b[i]
    }
}

/// The views of a sequence of strings.
pub open spec fn views(s: Seq<String>) -> Seq<Seq<char>> {
    s.map_values(|x: String| x@)
}

/// The names of `names` whose extension is `ext`, in their given order.
pub open spec fn with_extension(names: Seq<Seq<char>>, ext: Seq<char>) -> Seq<Seq<char>> {
    names.filter(|n: Seq<char>| path_extension(n) == Some(ext))
}

/// Keeps the names whose extension (`Path::extension`) is `ext` and returns
/// them in ascending order: this is how the script folder is listed
/// (`ext` = `ax`) and how extracted video frames are ordered
/// (`ext` = `png`).
pub fn sorted_with_extension(names: Vec<String>, ext: &str) -> (r: Vec<String>)
    ensures
        sorted_by(views(r@), lex_order()),
        views(r@).to_multiset() == with_extension(views(names@), ext@).to_multiset(),
{
    let ext_chars = chars_of(ext);
    let ghost pred = |n: Seq<char>| path_extension(n) == Some(ext@);
    let mut keys: Vec<Vec<char>> = Vec::new();
    let mut out: Vec<String> = Vec::new();
    let mut names = names;
    let ghost all = views(names@);
    let mut rest: Vec<String> = Vec::new();
    // Take the names out in order (reversed first so `pop` yields them in order).
    while names.len() > 0
        invariant
            views(rest@) + views(names@).reverse() == all.reverse(),
        decreases names.len(),
    {
        let ghost before = names@;
        let x = names.pop().unwrap();
        proof {
            assert(before =~= names@.push(x));
            assert(views(before) =~= views(names@).push(x@));
            assert(views(before).reverse() =~= seq![x@] + views(names@).reverse());
            assert(views(rest@.push(x)) =~= views(rest@).push(x@));
        }
        rest.push(x);
        proof {
            assert(views(rest@) + views(names@).reverse() =~= all.reverse());
        }
    }
    proof {
        assert(views(names@).reverse() =~= Seq::<Seq<char>>::empty());
        assert(views(rest@) =~= all.reverse());
    }
    // `rest` now holds the names last-first; pop them to visit first-first.
    let ghost mut done: Seq<Seq<char>> = Seq::empty();
    proof {
        lemma_lex_total_ordering();
        assert(all =~= done + views(rest@).reverse());
    }
    while rest.len() > 0
        invariant
            all == done + views(rest@).reverse(),
            keys@.len() == out@.len(),
            forall|i: int| 0 <= i < keys@.len() ==> #[trigger] keys@[i]@ == out@[i]@,
            sorted_by(views(out@), lex_order()),
            views(out@).to_multiset() == done.filter(pred).to_multiset(),
            pred == (|n: Seq<char>| path_extension(n) == Some(ext@)),
            ext_chars@ == ext@,
            total_ordering(lex_order()),
        decreases rest.len(),
    {
        let ghost before = rest@;
        let x = rest.pop().unwrap();
        proof {
            assert(before =~= rest@.push(x));
            assert(views(before) =~= views(rest@).push(x@));
            assert(views(before).reverse() =~= seq![x@] + views(rest@).reverse());
            assert(all =~= (done.push(x@)) + views(rest@).reverse());
            done.lemma_filter_push(x@, pred);
        }
        let xc = chars_of(x.as_str());
        if has_extension(&xc, &ext_chars) {
            // Insert after every key that is not greater than x.
            let mut p: usize = 0;
            while p < keys.len() && lex_le_exec(&keys[p], &xc)
                invariant
                    p <= keys@.len(),
                    forall|i: int| 0 <= i < p ==> lex_le(#[trigger] keys@[i]@, xc@),
                decreases keys.len() - p,
            {
                p = p + 1;
            }
            let ghost old_out = views(out@);
            proof {
                if p < keys.len() {
                    lemma_lex_total(keys@[p as int]@, xc@);
                    assert(old_out[p as int] == keys@[p as int]@);
                }
                assert forall|i: int| p <= i < old_out.len() implies lex_le(xc@, #[trigger] old_out[i]) by {
                    assert(old_out[p as int] == keys@[p as int]@);
                    if i > p {
                        assert(lex_order()(old_out[p as int], old_out[i]));
                        lemma_lex_trans(xc@, old_out[p as int], old_out[i]);
                    }
                }
                assert forall|i: int| 0 <= i < p implies lex_le(#[trigger] old_out[i], xc@) by {
                    assert(old_out[i] == keys@[i]@);
                }
            }
            let ghost old_keys = keys@;
            let ghost old_outs = out@;
            keys.insert(p, xc);
            out.insert(p, x);
            proof {
                let new_out = views(out@);
                assert(new_out =~= old_out.insert(p as int, x@));
                assert forall|i: int, j: int| 0 <= i < j < new_out.len() implies #[trigger] lex_order()(new_out[i], new_out[j]) by {
                    if j < p {
                        assert(lex_order()(old_out[i], old_out[j]));
                    } else if j == p {
                    } else if i < p {
                        assert(lex_le(old_out[i], x@));
                        lemma_lex_trans(old_out[i], x@, old_out[j - 1]);
                    } else if i == p {
                    } else {
                        assert(lex_order()(old_out[i - 1], old_out[j - 1]));
                    }
                }
                assert forall|i: int| 0 <= i < keys@.len() implies #[trigger] keys@[i]@ == out@[i]@ by {
                    if i < p {
                        assert(keys@[i] == old_keys[i] && out@[i] == old_outs[i]);
                    } else if i > p {
                        assert(keys@[i] == old_keys[i - 1] && out@[i] == old_outs[i - 1]);
                    }
                }
                assert(old_out.insert(p as int, x@) =~= old_out.subrange(0, p as int).push(x@) + old_out.subrange(p as int, old_out.len() as int));
                vstd::seq_lib::lemma_multiset_commutative(old_out.subrange(0, p as int).push(x@), old_out.subrange(p as int, old_out.len() as int));
                vstd::seq_lib::lemma_multiset_commutative(old_out.subrange(0, p as int), old_out.subrange(p as int, old_out.len() as int));
                assert(old_out =~= old_out.subrange(0, p as int) + old_out.subrange(p as int, old_out.len() as int));
            }
        }
        proof {
            done = done.push(x@);
        }
    }
    proof {
        assert(views(rest@).reverse() =~= Seq::<Seq<char>>::empty());
        assert(done =~= all);
    }
    out
}

} // verus!
