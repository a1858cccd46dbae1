//! Character-level helpers shared by the parsers: reading a `str` as
//! characters, building strings, and substring tests.
use vstd::prelude::*;
use vstd::string::StringExecFns;
use vstd::std_specs::iter::IteratorSpec;

verus! {

broadcast use vstd::string::group_string_axioms;

/// The characters of `s`, in order.
pub fn chars_of(s: &str) -> (r: Vec<char>)
    ensures
        r@ == s@,
{
    let mut it = s.chars();
    let mut out: Vec<char> = Vec::new();
    loop
        invariant
            it.obeys_prophetic_iter_laws(),
            out@ + it.remaining() == s@,
            it.decrease() is Some,
        ensures
            out@ == s@,
        decreases it.decrease()->0,
    {
        match it.next() {
            Some(c) => {
                out.push(c);
            },
            None => {
                assert(out@ + it.remaining() =~= out@);
                break;
            },
        }
    }
    out
}


/// Relies on `String::push`: the character is appended at the end.
#[verifier::external_body]
pub fn push_char(s: &mut String, c: char)
    ensures
        final(s)@ == old(s)@.push(c),
{
    s.push(c);
}

/// Whether two texts hold the same characters.
pub fn text_eq(a: &str, b: &str) -> (r: bool)
    ensures
        r == (a@ == b@),
{
    let x = chars_of(a);
    let y = chars_of(b);
    if x.len() != y.len() {
        return false;
    }
    let mut i: usize = 0;
    while i < x.len()
        invariant
            i <= x@.len(),
            x@.len() == y@.len(),
            x@ == a@,
            y@ == b@,
            forall|k: int| 0 <= k < i ==> x@[k] == y@[k],
        decreases x.len() - i,
    {
        if x[i] != y[i] {
            return false;
        }
        i = i + 1;
    }
    assert(x@ =~= y@);
    true
}

/// A `String` holding exactly the characters of `v`.
pub fn string_of(v: &Vec<char>) -> (r: String)
    ensures
        r@ == v@,
{
    let mut r = String::new();
    let mut i: usize = 0;
    while i < v.len()
        invariant
            i <= v.len(),
            r@ == v@.take(i as int),
        decreases v.len() - i,
    {
        push_char(&mut r, v[i]);
        i = i + 1;
        assert(r@ =~= v@.take(i as int));
    }
    assert(v@.take(i as int) =~= v@);
    r
}

/// `a` followed by `b`.
pub fn concat(a: &str, b: &str) -> (r: String)
    ensures
        r@ == a@ + b@,
{
    let mut r = String::from_str(a);
    r.append(b);
    r
}

/// A copy of an optional text.
pub fn copy_opt(o: &Option<String>) -> (r: Option<String>)
    ensures
        r == *o,
{
    match o {
        Some(s) => Some(s.clone()),
        None => None,
    }
}

/// Relies on `String::pop`: the last character is removed, if there is one.
#[verifier::external_body]
pub fn pop_char(s: &mut String)
    ensures
        final(s)@ == if old(s)@.len() > 0 {
            old(s)@.drop_last()
        } else {
            old(s)@
        },
{
    s.pop();
}

/// The views of a sequence of character vectors.
pub open spec fn views(v: Seq<Vec<char>>) -> Seq<Seq<char>> {
    Seq::new(v.len(), |i: int| v[i]@)
}

/// A line with one trailing carriage return removed, if it has one.
pub open spec fn strip_cr(l: Seq<char>) -> Seq<char> {
    if l.len() > 0 && l.last() == '\r' {
        l.drop_last()
    } else {
        l
    }
}

/// The lines of `s` that follow a partial line `cur`: each `\n` ends a
/// line (with a `\r` before it dropped), and a last line without `\n` counts
/// only if it is not empty.
pub open spec fn lines_acc(s: Seq<char>, cur: Seq<char>) -> Seq<Seq<char>>
    decreases s.len(),
{
    if s.len() == 0 {
        if cur.len() > 0 {
            seq![cur]
        } else {
            seq![]
        }
    } else if s[0] == '\n' {
        seq![strip_cr(cur)] + lines_acc(s.drop_first(), seq![])
    } else {
        lines_acc(s.drop_first(), cur.push(s[0]))
    }
}

/// The lines of a text, as `str::lines` gives them.
pub open spec fn lines(s: Seq<char>) -> Seq<Seq<char>> {
    lines_acc(s, seq![])
}

/// The pieces of `s` between occurrences of `sep`, after a partial piece `cur`.
pub open spec fn split_acc(s: Seq<char>, sep: char, cur: Seq<char>) -> Seq<Seq<char>>
    decreases s.len(),
{
    if s.len() == 0 {
        seq![cur]
    } else if s[0] == sep {
        seq![cur] + split_acc(s.drop_first(), sep, seq![])
    } else {
        split_acc(s.drop_first(), sep, cur.push(s[0]))
    }
}

/// The pieces of `s` between occurrences of `sep`, as `str::split` gives them:
/// never empty, and `k` separators give `k + 1` pieces.
pub open spec fn split(s: Seq<char>, sep: char) -> Seq<Seq<char>> {
    split_acc(s, sep, seq![])
}

/// Splits a text into lines.
pub fn split_lines(s: &Vec<char>) -> (r: Vec<Vec<char>>)
    ensures
        views(r@) == lines(s@),
{
    let mut out: Vec<Vec<char>> = Vec::new();
    let mut cur: Vec<char> = Vec::new();
    let mut i: usize = 0;
    assert(s@.skip(0) =~= s@);
    assert(views(out@) + lines_acc(s@, cur@) =~= lines(s@));
    while i < s.len()
        invariant
            i <= s.len(),
            views(out@) + lines_acc(s@.skip(i as int), cur@) == lines(s@),
        decreases s.len() - i,
    {
        let c = s[i];
        assert(s@.skip(i as int).drop_first() =~= s@.skip(i as int + 1));
        if c == '\n' {
            let mut line = cur;
            if line.len() > 0 && line[line.len() - 1] == '\r' {
                line.pop();
            }
            let ghost old_cur = cur@;
            assert(line@ == strip_cr(old_cur));
            let ghost before = views(out@);
            out.push(line);
            assert(views(out@) =~= before + seq![strip_cr(old_cur)]);
            cur = Vec::new();
            assert(lines_acc(s@.skip(i as int), old_cur) == seq![strip_cr(old_cur)] + lines_acc(
                s@.skip(i as int + 1),
                seq![],
            ));
            assert(views(out@) + lines_acc(s@.skip(i as int + 1), cur@) =~= before + (seq![
                strip_cr(old_cur),
            ] + lines_acc(s@.skip(i as int + 1), seq![])));
        } else {
            cur.push(c);
        }
        i = i + 1;
    }
    assert(s@.skip(i as int) =~= Seq::<char>::empty());
    if cur.len() > 0 {
        let ghost before = views(out@);
        out.push(cur);
        assert(views(out@) =~= before + lines_acc(s@.skip(i as int), cur@));
    } else {
        assert(views(out@) =~= views(out@) + lines_acc(s@.skip(i as int), cur@));
    }
    out
}

/// Splits `s` at every `sep`.
pub fn split_on(s: &Vec<char>, sep: char) -> (r: Vec<Vec<char>>)
    ensures
        views(r@) == split(s@, sep),
        r@.len() >= 1,
{
    let mut out: Vec<Vec<char>> = Vec::new();
    let mut cur: Vec<char> = Vec::new();
    let mut i: usize = 0;
    assert(s@.skip(0) =~= s@);
    assert(views(out@) + split_acc(s@, sep, cur@) =~= split(s@, sep));
    while i < s.len()
        invariant
            i <= s.len(),
            views(out@) + split_acc(s@.skip(i as int), sep, cur@) == split(s@, sep),
        decreases s.len() - i,
    {
        let c = s[i];
        assert(s@.skip(i as int).drop_first() =~= s@.skip(i as int + 1));
        if c == sep {
            let ghost before = views(out@);
            let ghost piece = cur@;
            out.push(cur);
            assert(views(out@) =~= before + seq![piece]);
            cur = Vec::new();
        } else {
            cur.push(c);
        }
        i = i + 1;
    }
    assert(s@.skip(i as int) =~= Seq::<char>::empty());
    let ghost before = views(out@);
    out.push(cur);
    assert(views(out@) =~= before + split_acc(s@.skip(i as int), sep, cur@));
    out
}


pub open spec fn free_of(s: Seq<char>, c: char) -> bool {
    forall|i: int| 0 <= i < s.len() ==> s[i] != c
}

/// A run of characters without a line break joins the current line.
pub proof fn lemma_lines_acc_run(l: Seq<char>, rest: Seq<char>, cur: Seq<char>)
    requires
        free_of(l, '\n'),
    ensures
        lines_acc(l + rest, cur) == lines_acc(rest, cur + l),
    decreases l.len(),
{
    if l.len() == 0 {
        assert(l + rest =~= rest);
        assert(cur + l =~= cur);
    } else {
        assert((l + rest)[0] == l[0]);
        assert((l + rest).drop_first() =~= l.drop_first() + rest);
        lemma_lines_acc_run(l.drop_first(), rest, cur.push(l[0]));
        assert(cur.push(l[0]) + l.drop_first() =~= cur + l);
    }
}

/// A line without a break, ended by `\r\n`, is one line, and what follows
/// is read afresh.
pub proof fn lemma_lines_crlf(l: Seq<char>, rest: Seq<char>)
    requires
        free_of(l, '\n'),
    ensures
        lines_acc(l + seq!['\r', '\n'] + rest, seq![]) == seq![l] + lines_acc(rest, seq![]),
{
    let t = seq!['\r', '\n'] + rest;
    assert(l + seq!['\r', '\n'] + rest =~= l + t);
    lemma_lines_acc_run(l, t, seq![]);
    assert(Seq::<char>::empty() + l =~= l);
    assert(t[0] == '\r');
    let t1 = seq!['\n'] + rest;
    assert(t.drop_first() =~= t1);
    assert(lines_acc(t, l) == lines_acc(t1, l.push('\r')));
    assert(t1[0] == '\n');
    assert(t1.drop_first() =~= rest);
    assert(lines_acc(t1, l.push('\r')) == seq![strip_cr(l.push('\r'))] + lines_acc(rest, seq![]));
    assert(l.push('\r').drop_last() =~= l);
    assert(strip_cr(l.push('\r')) == l);
}

/// A run without the separator joins the current piece.
pub proof fn lemma_split_acc_run(a: Seq<char>, rest: Seq<char>, sep: char, cur: Seq<char>)
    requires
        free_of(a, sep),
    ensures
        split_acc(a + rest, sep, cur) == split_acc(rest, sep, cur + a),
    decreases a.len(),
{
    if a.len() == 0 {
        assert(a + rest =~= rest);
        assert(cur + a =~= cur);
    } else {
        assert((a + rest)[0] == a[0]);
        assert((a + rest).drop_first() =~= a.drop_first() + rest);
        lemma_split_acc_run(a.drop_first(), rest, sep, cur.push(a[0]));
        assert(cur.push(a[0]) + a.drop_first() =~= cur + a);
    }
}

/// The lines of a text hold no line break.
pub proof fn lemma_lines_free(s: Seq<char>, cur: Seq<char>)
    requires
        free_of(cur, '\n'),
    ensures
        forall|k: int| 0 <= k < lines_acc(s, cur).len() ==> free_of(#[trigger] lines_acc(s, cur)[k], '\n'),
    decreases s.len(),
{
    if s.len() == 0 {
        if cur.len() > 0 {
            assert(lines_acc(s, cur) == seq![cur]);
            assert(seq![cur][0] == cur);
        }
    } else {
        if s[0] == '\n' {
            assert(free_of(strip_cr(cur), '\n')) by {
                assert forall|i: int| 0 <= i < strip_cr(cur).len() implies strip_cr(cur)[i] != '\n' by {
                    assert(strip_cr(cur)[i] == cur[i]);
                };
            };
            lemma_lines_free(s.drop_first(), seq![]);
            let r = lines_acc(s.drop_first(), seq![]);
            assert forall|k: int| 0 <= k < (seq![strip_cr(cur)] + r).len() implies free_of(
                #[trigger] (seq![strip_cr(cur)] + r)[k],
                '\n',
            ) by {
                if k > 0 {
                    assert((seq![strip_cr(cur)] + r)[k] == r[k - 1]);
                }
            };
        } else {
            assert(free_of(cur.push(s[0]), '\n')) by {
                assert forall|i: int| 0 <= i < cur.push(s[0]).len() implies cur.push(s[0])[i] != '\n' by {
                    if i < cur.len() {
                        assert(cur.push(s[0])[i] == cur[i]);
                    }
                };
            };
            lemma_lines_free(s.drop_first(), cur.push(s[0]));
            assert(lines_acc(s, cur) == lines_acc(s.drop_first(), cur.push(s[0])));
        }
    }
}

/// The pieces of a split hold no separator, and no character that the
/// text and the starting piece do not hold.
pub proof fn lemma_split_free(s: Seq<char>, sep: char, cur: Seq<char>, c: char)
    requires
        free_of(cur, sep),
        free_of(cur, c),
        free_of(s, c),
    ensures
        split_acc(s, sep, cur).len() >= 1,
        forall|k: int| 0 <= k < split_acc(s, sep, cur).len() ==> free_of(#[trigger] split_acc(s, sep, cur)[k], sep)
            && free_of(split_acc(s, sep, cur)[k], c),
    decreases s.len(),
{
    if s.len() == 0 {
        assert(split_acc(s, sep, cur) == seq![cur]);
        assert(seq![cur][0] == cur);
    } else {
        if s[0] == sep {
            assert forall|i: int| 0 <= i < s.drop_first().len() implies s.drop_first()[i] != c by {
                assert(s.drop_first()[i] == s[i + 1]);
            };
            lemma_split_free(s.drop_first(), sep, seq![], c);
            let r = split_acc(s.drop_first(), sep, seq![]);
            assert forall|k: int| 0 <= k < (seq![cur] + r).len() implies free_of(
                #[trigger] (seq![cur] + r)[k],
                sep,
            ) && free_of((seq![cur] + r)[k], c) by {
                if k > 0 {
                    assert((seq![cur] + r)[k] == r[k - 1]);
                }
            };
        } else {
            assert(s[0] != c);
            let nc = cur.push(s[0]);
            assert(free_of(nc, sep) && free_of(nc, c)) by {
                assert forall|i: int| 0 <= i < nc.len() implies nc[i] != sep && nc[i] != c by {
                    if i < cur.len() {
                        assert(nc[i] == cur[i]);
                    }
                };
            };
            assert forall|i: int| 0 <= i < s.drop_first().len() implies s.drop_first()[i] != c by {
                assert(s.drop_first()[i] == s[i + 1]);
            };
            lemma_split_free(s.drop_first(), sep, nc, c);
            assert(split_acc(s, sep, cur) == split_acc(s.drop_first(), sep, nc));
        }
    }
}

/// Lexicographic order on texts, comparing characters by code point (the
/// order of `str`'s `<`).
pub open spec fn text_lt(a: Seq<char>, b: Seq<char>) -> bool
    decreases a.len(),
{
    if a.len() == 0 {
        b.len() > 0
    } else if b.len() == 0 {
        false
    } else if a[0] != b[0] {
        a[0] < b[0]
    } else {
        text_lt(a.drop_first(), b.drop_first())
    }
}

/// Strictly increasing, hence without repeats.
pub open spec fn sorted_texts(v: Seq<Seq<char>>) -> bool {
    forall|i: int, j: int| 0 <= i < j < v.len() ==> text_lt(v[i], v[j])
}

pub proof fn lemma_text_lt_irreflexive(a: Seq<char>)
    ensures
        !text_lt(a, a),
    decreases a.len(),
{
    if a.len() > 0 {
        lemma_text_lt_irreflexive(a.drop_first());
    }
}

pub proof fn lemma_text_lt_transitive(a: Seq<char>, b: Seq<char>, c: Seq<char>)
    requires
        text_lt(a, b),
        text_lt(b, c),
    ensures
        text_lt(a, c),
    decreases a.len(),
{
    if a.len() > 0 && b.len() > 0 && c.len() > 0 {
        if a[0] == b[0] && b[0] == c[0] {
            lemma_text_lt_transitive(a.drop_first(), b.drop_first(), c.drop_first());
        }
    }
}

pub proof fn lemma_text_lt_total(a: Seq<char>, b: Seq<char>)
    requires
        a != b,
    ensures
        text_lt(a, b) || text_lt(b, a),
    decreases a.len(),
{
    if a.len() == 0 && b.len() == 0 {
        assert(a =~= b);
    } else if a.len() > 0 && b.len() > 0 && a[0] != b[0] {
    } else if a.len() > 0 && b.len() > 0 && a[0] == b[0] {
        if a.drop_first() == b.drop_first() {
            assert(a =~= seq![a[0]] + a.drop_first());
            assert(b =~= seq![b[0]] + b.drop_first());
        }
        lemma_text_lt_total(a.drop_first(), b.drop_first());
    }
}

/// Whether `a` comes before `b`.
pub fn text_less(a: &str, b: &str) -> (r: bool)
    ensures
        r == text_lt(a@, b@),
{
    let x = chars_of(a);
    let y = chars_of(b);
    let mut i: usize = 0;
    assert(x@.skip(0) =~= x@);
    assert(y@.skip(0) =~= y@);
    while i < x.len() && i < y.len()
        invariant
            i <= x.len(),
            i <= y.len(),
            text_lt(x@.skip(i as int), y@.skip(i as int)) == text_lt(a@, b@),
        decreases x.len() - i,
    {
        assert(x@.skip(i as int).drop_first() =~= x@.skip(i as int + 1));
        assert(y@.skip(i as int).drop_first() =~= y@.skip(i as int + 1));
        if x[i] != y[i] {
            return x[i] < y[i];
        }
        i = i + 1;
    }
    i < y.len()
}

/// The texts of a finite set in increasing order.
pub open spec fn sorted_of(s: Set<Seq<char>>) -> Seq<Seq<char>> {
    choose|v: Seq<Seq<char>>| sorted_texts(v) && v.to_set() == s
}

/// A strictly increasing sequence is determined by its elements.
pub proof fn lemma_sorted_unique(a: Seq<Seq<char>>, b: Seq<Seq<char>>)
    requires
        sorted_texts(a),
        sorted_texts(b),
        a.to_set() == b.to_set(),
    ensures
        a == b,
    decreases a.len(),
{
    if a.len() == 0 {
        if b.len() > 0 {
            assert(b.to_set().contains(b[0]));
        }
        assert(a =~= b);
    } else {
        assert(a.to_set().contains(a[0]));
        assert(b.len() > 0);
        assert(b.to_set().contains(b[0]));
        let j = choose|j: int| 0 <= j < b.len() && b[j] == a[0];
        let i = choose|i: int| 0 <= i < a.len() && a[i] == b[0];
        if j > 0 {
            if i == 0 {
                lemma_text_lt_irreflexive(a[0]);
            } else {
                lemma_text_lt_transitive(a[0], a[i], a[0]);
                lemma_text_lt_irreflexive(a[0]);
            }
        }
        assert(b[0] == a[0]);
        let a1 = a.drop_first();
        let b1 = b.drop_first();
        assert(a1.to_set() =~= b1.to_set()) by {
            assert forall|x: Seq<char>| a1.to_set().contains(x) implies b1.to_set().contains(x) by {
                let k = choose|k: int| 0 <= k < a1.len() && a1[k] == x;
                assert(a.to_set().contains(x)) by {
                    assert(a[k + 1] == x);
                };
                let m = choose|m: int| 0 <= m < b.len() && b[m] == x;
                if m == 0 {
                    assert(text_lt(a[0], a[k + 1]));
                    lemma_text_lt_irreflexive(a[0]);
                }
                assert(b1[m - 1] == x);
            };
            assert forall|x: Seq<char>| b1.to_set().contains(x) implies a1.to_set().contains(x) by {
                let k = choose|k: int| 0 <= k < b1.len() && b1[k] == x;
                assert(b.to_set().contains(x)) by {
                    assert(b[k + 1] == x);
                };
                let m = choose|m: int| 0 <= m < a.len() && a[m] == x;
                if m == 0 {
                    assert(text_lt(b[0], b[k + 1]));
                    lemma_text_lt_irreflexive(b[0]);
                }
                assert(a1[m - 1] == x);
            };
        };
        lemma_sorted_unique(a1, b1);
        assert(a =~= b) by {
            assert forall|k: int| 0 <= k < a.len() implies a[k] == b[k] by {
                if k > 0 {
                    assert(a[k] == a1[k - 1]);
                    assert(b[k] == b1[k - 1]);
                }
            };
        };
    }
}

/// What a sorted vector holds is the sorted sequence of its elements.
pub proof fn lemma_is_sorted_of(v: Seq<Seq<char>>)
    requires
        sorted_texts(v),
    ensures
        sorted_of(v.to_set()) == v,
{
    let w = sorted_of(v.to_set());
    assert(sorted_texts(w) && w.to_set() == v.to_set());
    lemma_sorted_unique(w, v);
}

/// Whether `s` starts with `prefix`.
pub fn text_starts_with(s: &str, prefix: &str) -> (r: bool)
    ensures
        r == prefix@.is_prefix_of(s@),
{
    let x = chars_of(s);
    let y = chars_of(prefix);
    if y.len() > x.len() {
        return false;
    }
    let mut i: usize = 0;
    while i < y.len()
        invariant
            i <= y.len() <= x.len(),
            x@ == s@,
            y@ == prefix@,
            forall|k: int| 0 <= k < i ==> x@[k] == y@[k],
        decreases y.len() - i,
    {
        if x[i] != y[i] {
            assert(x@.subrange(0, y@.len() as int)[i as int] != y@[i as int]);
            assert(!(y@ =~= x@.subrange(0, y@.len() as int)));
            return false;
        }
        i = i + 1;
    }
    assert(y@ =~= x@.take(y@.len() as int));
    true
}

/// The views of a sequence of strings.
pub open spec fn string_views(v: Seq<String>) -> Seq<Seq<char>> {
    Seq::new(v.len(), |i: int| v[i]@)
}

/// Adds `s` to a sorted vector of strings, keeping it sorted; a string
/// already there is not added again.
pub fn insert_sorted(v: &mut Vec<String>, s: String)
    requires
        sorted_texts(string_views(old(v)@)),
    ensures
        sorted_texts(string_views(final(v)@)),
        string_views(final(v)@).to_set() == string_views(old(v)@).to_set().insert(s@),
{
    let ghost before = string_views(v@);
    let mut p: usize = 0;
    while p < v.len()
        invariant
            p <= v@.len(),
            string_views(v@) == before,
            forall|k: int| 0 <= k < p ==> text_lt(#[trigger] before[k], s@),
        ensures
            p <= v@.len(),
            string_views(v@) == before,
            forall|k: int| 0 <= k < p ==> text_lt(#[trigger] before[k], s@),
            p < v@.len() ==> !text_lt(before[p as int], s@),
        decreases v.len() - p,
    {
        if !text_less(v[p].as_str(), s.as_str()) {
            assert(before[p as int] == v@[p as int]@);
            break;
        }
        p = p + 1;
    }
    if p < v.len() && text_eq(v[p].as_str(), s.as_str()) {
        assert(before[p as int] == s@);
        assert(before.to_set().insert(s@) =~= before.to_set());
        return ;
    }
    let ghost sv = s@;
    v.insert(p, s);
    let ghost after = string_views(v@);
    assert(after =~= before.insert(p as int, sv));
    proof {
        if p < before.len() {
            lemma_text_lt_total(before[p as int], sv);
        }
        assert forall|i: int, j: int| 0 <= i < j < after.len() implies text_lt(
            after[i],
            after[j],
        ) by {
            if j == p {
            } else if i == p {
                if j > p + 1 {
                    lemma_text_lt_transitive(sv, before[p as int], before[j - 1]);
                }
            } else if i < p && j > p {
                if p < before.len() {
                    if j - 1 > p {
                        lemma_text_lt_transitive(sv, before[p as int], before[j - 1]);
                    }
                    lemma_text_lt_transitive(before[i], sv, before[j - 1]);
                }
            }
        };
        assert(after.to_set() =~= before.to_set().insert(sv)) by {
            assert forall|x: Seq<char>| after.to_set().contains(x) implies before.to_set().insert(
                sv,
            ).contains(x) by {
                let k = choose|k: int| 0 <= k < after.len() && after[k] == x;
                if k < p {
                    assert(before[k] == x);
                } else if k > p {
                    assert(before[k - 1] == x);
                }
            };
            assert forall|x: Seq<char>| before.to_set().insert(sv).contains(x) implies after.to_set().contains(
                x,
            ) by {
                if x == sv {
                    assert(after[p as int] == x);
                } else {
                    let k = choose|k: int| 0 <= k < before.len() && before[k] == x;
                    if k < p {
                        assert(after[k] == x);
                    } else {
                        assert(after[k + 1] == x);
                    }
                }
            };
        };
    }
}


/// `s` with every leading `c` removed.
pub open spec fn trim_start(s: Seq<char>, c: char) -> Seq<char>
    decreases s.len(),
{
    if s.len() > 0 && s[0] == c {
        trim_start(s.drop_first(), c)
    } else {
        s
    }
}

/// `s` with every trailing `c` removed.
pub open spec fn trim_end(s: Seq<char>, c: char) -> Seq<char>
    decreases s.len(),
{
    if s.len() > 0 && s.last() == c {
        trim_end(s.drop_last(), c)
    } else {
        s
    }
}

/// The characters of `v` from `from` on, as a `String`.
pub fn string_of_range(v: &Vec<char>, from: usize, to: usize) -> (r: String)
    requires
        from <= to <= v@.len(),
    ensures
        r@ == v@.subrange(from as int, to as int),
{
    let mut r = String::new();
    let mut i: usize = from;
    while i < to
        invariant
            from <= i <= to <= v@.len(),
            r@ == v@.subrange(from as int, i as int),
        decreases to - i,
    {
        push_char(&mut r, v[i]);
        i = i + 1;
        assert(r@ =~= v@.subrange(from as int, i as int));
    }
    r
}

/// `s` without its leading occurrences of `c`.
pub fn trim_start_char(s: &str, c: char) -> (r: String)
    ensures
        r@ == trim_start(s@, c),
{
    let v = chars_of(s);
    let mut i: usize = 0;
    assert(v@.subrange(0, v@.len() as int) =~= v@);
    while i < v.len() && v[i] == c
        invariant
            i <= v@.len(),
            trim_start(v@.subrange(i as int, v@.len() as int), c) == trim_start(s@, c),
            v@ == s@,
        decreases v.len() - i,
    {
        assert(v@.subrange(i as int, v@.len() as int).drop_first() =~= v@.subrange(
            i as int + 1,
            v@.len() as int,
        ));
        i = i + 1;
    }
    string_of_range(&v, i, v.len())
}

/// `s` without its trailing occurrences of `c`.
pub fn trim_end_char(s: &str, c: char) -> (r: String)
    ensures
        r@ == trim_end(s@, c),
{
    let v = chars_of(s);
    let mut n: usize = v.len();
    assert(v@.subrange(0, v@.len() as int) =~= v@);
    while n > 0 && v[n - 1] == c
        invariant
            n <= v@.len(),
            trim_end(v@.subrange(0, n as int), c) == trim_end(s@, c),
            v@ == s@,
        decreases n,
    {
        assert(v@.subrange(0, n as int).drop_last() =~= v@.subrange(0, n as int - 1));
        n = n - 1;
    }
    string_of_range(&v, 0, n)
}

/// Whether `needle` occurs in `hay` as a contiguous run.
pub open spec fn contains_text(hay: Seq<char>, needle: Seq<char>) -> bool {
    exists|i: int| 0 <= i <= hay.len() - needle.len() && #[trigger] hay.subrange(i, i + needle.len()) == needle
}

/// Whether `needle` occurs in `hay`.
pub fn text_contains(hay: &str, needle: &str) -> (r: bool)
    ensures
        r == contains_text(hay@, needle@),
{
    let h = chars_of(hay);
    let n = chars_of(needle);
    if n.len() > h.len() {
        return false;
    }
    let mut i: usize = 0;
    while i <= h.len() - n.len()
        invariant
            n@.len() <= h@.len(),
            h@ == hay@,
            n@ == needle@,
            i <= h@.len() - n@.len() + 1,
            forall|k: int| 0 <= k < i ==> #[trigger] h@.subrange(k, k + n@.len()) != n@,
        decreases h.len() - n.len() + 1 - i,
    {
        let mut j: usize = 0;
        let mut same = true;
        while j < n.len()
            invariant
                n@.len() <= h@.len(),
                i <= h@.len() - n@.len(),
                i + n@.len() <= h@.len(),
                j <= n@.len(),
                same == (forall|k: int| 0 <= k < j ==> h@[i + k] == n@[k]),
            decreases n.len() - j,
        {
            let hl = h.len();
            assert(i + j < hl);
            if h[i + j] != n[j] {
                same = false;
            }
            j = j + 1;
        }
        if same {
            assert(h@.subrange(i as int, i + n@.len()) =~= n@);
            return true;
        } else {
            assert(h@.subrange(i as int, i + n@.len()) != n@) by {
                let k = choose|k: int| 0 <= k < n@.len() && h@[i + k] != n@[k];
                assert(h@.subrange(i as int, i + n@.len())[k] != n@[k]);
            };
        }
        i = i + 1;
    }
    false
}

/// What `str::to_lowercase` gives for a text: Unicode case folding to lower
/// case, which depends on the characters alone.
pub uninterp spec fn lower_of(s: Seq<char>) -> Seq<char>;

/// Relies on `str::to_lowercase`: the lower-case form of the text, which
/// depends on its characters alone.
#[verifier::external_body]
pub fn lowercase(s: &str) -> (r: String)
    ensures
        r@ == lower_of(s@),
        s@.len() == 0 ==> r@.len() == 0,
{
    s.to_lowercase()
}


/// The decimal digit for `d < 10`.
pub open spec fn digit_char(d: nat) -> char {
    if d == 0 { '0' } else if d == 1 { '1' } else if d == 2 { '2' } else if d == 3 { '3' }
    else if d == 4 { '4' } else if d == 5 { '5' } else if d == 6 { '6' } else if d == 7 { '7' }
    else if d == 8 { '8' } else { '9' }
}

/// The decimal numeral of `n`, without leading zeros.
pub open spec fn decimal(n: nat) -> Seq<char>
    decreases n,
{
    if n < 10 {
        seq![digit_char(n)]
    } else {
        decimal(n / 10).push(digit_char(n % 10))
    }
}

fn digit_of(d: usize) -> (c: char)
    requires
        d < 10,
    ensures
        c == digit_char(d as nat),
{
    if d == 0 { '0' } else if d == 1 { '1' } else if d == 2 { '2' } else if d == 3 { '3' }
    else if d == 4 { '4' } else if d == 5 { '5' } else if d == 6 { '6' } else if d == 7 { '7' }
    else if d == 8 { '8' } else { '9' }
}

/// The decimal numeral of `n`.
pub fn decimal_string(n: usize) -> (r: String)
    ensures
        r@ == decimal(n as nat),
    decreases n,
{
    if n < 10 {
        let mut r = String::new();
        push_char(&mut r, digit_of(n));
        assert(r@ =~= seq![digit_char(n as nat)]);
        r
    } else {
        let mut r = decimal_string(n / 10);
        push_char(&mut r, digit_of(n % 10));
        r
    }
}

} // verus!
