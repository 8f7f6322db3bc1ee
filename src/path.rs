//! Path normalization: from a path string to its sequence of real components.
//!
//! Characters are read left to right. A separator closes the component read
//! since the previous one; an empty component or `.` is dropped, `..` drops the
//! last real component (or nothing, at the start of the path), and any other
//! component is kept.

use vstd::prelude::*;
use vstd::string::*;

verus! {

/// The state of the left-to-right reading: the real components kept so far,
/// and the characters of the component being read.
pub type ReadState = (Seq<Seq<char>>, Seq<char>);

pub open spec fn dot() -> Seq<char> {
    seq!['.']
}

pub open spec fn dot_dot() -> Seq<char> {
    seq!['.', '.']
}

pub open spec fn has_separator(c: Seq<char>) -> bool {
    exists|i: int| 0 <= i < c.len() && c[i] == '/'
}

/// A component that normalization keeps as it is.
pub open spec fn is_real_component(c: Seq<char>) -> bool {
    &&& c.len() > 0
    &&& !has_separator(c)
    &&& c != dot()
    &&& c != dot_dot()
}

/// What closing the component `c` does to the kept components.
pub open spec fn close_component(kept: Seq<Seq<char>>, c: Seq<char>) -> Seq<Seq<char>> {
    if c.len() == 0 || c == dot() {
        kept
    } else if c == dot_dot() {
        if kept.len() > 0 {
            kept.drop_last()
        } else {
            kept
        }
    } else {
        kept.push(c)
    }
}

pub open spec fn read_char(st: ReadState, ch: char) -> ReadState {
    if ch == '/' {
        (close_component(st.0, st.1), Seq::empty())
    } else {
        (st.0, st.1.push(ch))
    }
}

/// The state after reading all of `s`, starting from `st`.
pub open spec fn read_all(st: ReadState, s: Seq<char>) -> ReadState
    decreases s.len(),
{
    if s.len() == 0 {
        st
    } else {
        read_char(read_all(st, s.drop_last()), s.last())
    }
}

pub open spec fn start_state() -> ReadState {
    (Seq::empty(), Seq::empty())
}

/// The real components of the path `s`, in order.
pub open spec fn normalize(s: Seq<char>) -> Seq<Seq<char>> {
    let st = read_all(start_state(), s);
    close_component(st.0, st.1)
}

/// The canonical path of a sequence of components: each preceded by a
/// separator. The root's canonical path is empty.
pub open spec fn join(cs: Seq<Seq<char>>) -> Seq<char>
    decreases cs.len(),
{
    if cs.len() == 0 {
        Seq::empty()
    } else {
        join(cs.drop_last()) + seq!['/'] + cs.last()
    }
}

pub open spec fn strings_view(v: Seq<String>) -> Seq<Seq<char>> {
    v.map_values(|c: String| c@)
}

pub open spec fn all_real(cs: Seq<Seq<char>>) -> bool {
    forall|i: int| 0 <= i < cs.len() ==> is_real_component(#[trigger] cs[i])
}

proof fn lemma_close_real(kept: Seq<Seq<char>>, c: Seq<char>)
    requires
        all_real(kept),
        !has_separator(c),
    ensures
        all_real(close_component(kept, c)),
{
    let r = close_component(kept, c);
    assert forall|i: int| 0 <= i < r.len() implies is_real_component(#[trigger] r[i]) by {
        if i < kept.len() {
            assert(is_real_component(kept[i]));
        }
    }
}

proof fn lemma_read_real(s: Seq<char>)
    ensures
        all_real(read_all(start_state(), s).0),
        !has_separator(read_all(start_state(), s).1),
    decreases s.len(),
{
    if s.len() > 0 {
        lemma_read_real(s.drop_last());
        let st = read_all(start_state(), s.drop_last());
        if s.last() == '/' {
            lemma_close_real(st.0, st.1);
        } else {
            let c = st.1.push(s.last());
            if has_separator(c) {
                let i = choose|i: int| 0 <= i < c.len() && c[i] == '/';
                assert(st.1[i] == '/');
            }
        }
    }
}

/// Every component of a normal form is a real one.
pub proof fn lemma_normalize_real(s: Seq<char>)
    ensures
        all_real(normalize(s)),
{
    lemma_read_real(s);
    let st = read_all(start_state(), s);
    lemma_close_real(st.0, st.1);
}

proof fn lemma_read_concat(st: ReadState, a: Seq<char>, b: Seq<char>)
    ensures
        read_all(st, a + b) == read_all(read_all(st, a), b),
    decreases b.len(),
{
    if b.len() == 0 {
        assert(a + b =~= a);
    } else {
        assert((a + b).drop_last() =~= a + b.drop_last());
        lemma_read_concat(st, a, b.drop_last());
    }
}

proof fn lemma_read_word(st: ReadState, w: Seq<char>)
    requires
        !has_separator(w),
    ensures
        read_all(st, w) == (st.0, st.1 + w),
    decreases w.len(),
{
    if w.len() == 0 {
        assert(st.1 + w =~= st.1);
    } else {
        let p = w.drop_last();
        assert(!has_separator(p)) by {
            if has_separator(p) {
                let i = choose|i: int| 0 <= i < p.len() && p[i] == '/';
                assert(w[i] == '/');
            }
        }
        lemma_read_word(st, p);
        assert(w[w.len() - 1] != '/');
        assert((st.1 + p).push(w.last()) =~= st.1 + w);
    }
}

proof fn lemma_read_join(cs: Seq<Seq<char>>)
    requires
        cs.len() > 0,
        forall|i: int| 0 <= i < cs.len() ==> is_real_component(#[trigger] cs[i]),
    ensures
        read_all(start_state(), join(cs)) == (cs.drop_last(), cs.last()),
    decreases cs.len(),
{
    let p = cs.drop_last();
    let c = cs.last();
    let sep = seq!['/'];
    let s = start_state();
    assert(join(cs) == join(p) + sep + c);
    lemma_read_concat(s, join(p) + sep, c);
    lemma_read_concat(s, join(p), sep);
    let mid = read_all(s, join(p));
    assert(sep.drop_last() =~= Seq::<char>::empty());
    assert(read_all(mid, sep) == read_char(read_all(mid, sep.drop_last()), '/'));
    assert(read_all(mid, sep) == (close_component(mid.0, mid.1), Seq::<char>::empty()));
    if p.len() == 0 {
        assert(join(p) == Seq::<char>::empty());
        assert(mid == s);
        assert(close_component(mid.0, mid.1) =~= p);
    } else {
        lemma_read_join(p);
        assert(is_real_component(p[p.len() - 1]));
        assert(p.drop_last().push(p.last()) =~= p);
        assert(close_component(mid.0, mid.1) == p);
    }
    assert(is_real_component(cs[cs.len() - 1]));
    lemma_read_word((p, Seq::<char>::empty()), c);
    assert(Seq::<char>::empty() + c =~= c);
}

/// A canonical path normalizes to the components it was made of, so
/// normalizing it again gives it back unchanged.
pub proof fn lemma_normalize_canonical(cs: Seq<Seq<char>>)
    requires
        forall|i: int| 0 <= i < cs.len() ==> is_real_component(#[trigger] cs[i]),
    ensures
        normalize(join(cs)) == cs,
        join(normalize(join(cs))) == join(cs),
{
    if cs.len() == 0 {
        assert(normalize(join(cs)) =~= cs);
    } else {
        lemma_read_join(cs);
        assert(is_real_component(cs[cs.len() - 1]));
        assert(cs.drop_last().push(cs.last()) =~= cs);
    }
}

proof fn lemma_double_separator_state(st: ReadState)
    ensures
        read_all(st, seq!['/', '/']) == read_all(st, seq!['/']),
{
    assert(seq!['/', '/'].drop_last() =~= seq!['/']);
    assert(seq!['/'].drop_last() =~= Seq::<char>::empty());
}

proof fn lemma_dot_segment_state(st: ReadState)
    ensures
        read_all(st, seq!['/', '.', '/']) == read_all(st, seq!['/']),
{
    let e = Seq::<char>::empty();
    assert(seq!['/', '.', '/'].drop_last() =~= seq!['/', '.']);
    assert(seq!['/', '.'].drop_last() =~= seq!['/']);
    assert(seq!['/'].drop_last() =~= e);
    assert(read_all(st, e) == st);
    assert(seq!['/'].last() == '/');
    assert(seq!['/', '.'].last() == '.');
    assert(seq!['/', '.', '/'].last() == '/');
    let s1 = read_all(st, seq!['/']);
    assert(s1 == read_char(st, '/'));
    assert(s1.1 == e);
    let s2 = read_all(st, seq!['/', '.']);
    assert(s2 == read_char(s1, '.'));
    assert(s2.1 =~= dot());
    let s3 = read_all(st, seq!['/', '.', '/']);
    assert(s3 == read_char(s2, '/'));
    assert(close_component(s2.0, s2.1) == s1.0);
}

/// Doubling a separator anywhere in a path does not change its normal form.
pub proof fn lemma_normalize_double_separator(a: Seq<char>, b: Seq<char>)
    ensures
        normalize(a + seq!['/', '/'] + b) == normalize(a + seq!['/'] + b),
{
    let s = start_state();
    lemma_read_concat(s, a + seq!['/', '/'], b);
    lemma_read_concat(s, a + seq!['/'], b);
    lemma_read_concat(s, a, seq!['/', '/']);
    lemma_read_concat(s, a, seq!['/']);
    lemma_double_separator_state(read_all(s, a));
}

/// Inserting a `.` component anywhere in a path does not change its normal
/// form.
pub proof fn lemma_normalize_dot_segment(a: Seq<char>, b: Seq<char>)
    ensures
        normalize(a + seq!['/', '.', '/'] + b) == normalize(a + seq!['/'] + b),
{
    let s = start_state();
    lemma_read_concat(s, a + seq!['/', '.', '/'], b);
    lemma_read_concat(s, a + seq!['/'], b);
    lemma_read_concat(s, a, seq!['/', '.', '/']);
    lemma_read_concat(s, a, seq!['/']);
    lemma_dot_segment_state(read_all(s, a));
}

fn close_component_exec(kept: &mut Vec<String>, c: &str)
    ensures
        strings_view(final(kept)@) == close_component(strings_view(old(kept)@), c@),
{
    let len = c.unicode_len();
    let ghost old_view = strings_view(kept@);
    if len == 0 {
    } else if len == 1 && c.get_char(0) == '.' {
        assert(c@ =~= dot());
    } else if len == 2 && c.get_char(0) == '.' && c.get_char(1) == '.' {
        assert(c@ =~= dot_dot());
        if kept.len() > 0 {
            kept.pop();
            assert(strings_view(kept@) =~= old_view.drop_last());
        }
    } else {
        assert(c@ != dot());
        assert(c@ != dot_dot());
        kept.push(String::from_str(c));
        assert(strings_view(kept@) =~= old_view.push(c@));
    }
}

/// The real components of `path`, in order.
pub fn normalized_components(path: &str) -> (r: Vec<String>)
    ensures
        strings_view(r@) == normalize(path@),
{
    let n = path.unicode_len();
    let mut kept: Vec<String> = Vec::new();
    let mut start: usize = 0;
    let mut i: usize = 0;
    assert(strings_view(kept@) =~= Seq::<Seq<char>>::empty());
    assert(path@.subrange(0, 0) =~= Seq::<char>::empty());
    while i < n
        invariant
            n == path@.len(),
            start <= i <= n,
            read_all(start_state(), path@.subrange(0, i as int)) == (
                strings_view(kept@),
                path@.subrange(start as int, i as int),
            ),
        decreases n - i,
    {
        let ch = path.get_char(i);
        assert(path@.subrange(0, i + 1).drop_last() =~= path@.subrange(0, i as int));
        if ch == '/' {
            let c = path.substring_char(start, i);
            close_component_exec(&mut kept, c);
            start = i + 1;
            assert(path@.subrange(start as int, i + 1) =~= Seq::<char>::empty());
        } else {
            assert(path@.subrange(start as int, i + 1) =~= path@.subrange(
                start as int,
                i as int,
            ).push(ch));
        }
        i = i + 1;
    }
    assert(path@.subrange(0, n as int) =~= path@);
    let c = path.substring_char(start, n);
    close_component_exec(&mut kept, c);
    kept
}

/// The canonical path made of `cs`.
pub fn join_components(cs: &Vec<String>) -> (r: String)
    ensures
        r@ == join(strings_view(cs@)),
{
    let mut r = String::new();
    let mut i: usize = 0;
    let sep = "/";
    proof {
        reveal_strlit("/");
    }
    assert(strings_view(cs@).subrange(0, 0) =~= Seq::<Seq<char>>::empty());
    while i < cs.len()
        invariant
            i <= cs@.len(),
            sep@ == seq!['/'],
            r@ == join(strings_view(cs@).subrange(0, i as int)),
        decreases cs@.len() - i,
    {
        r.append(sep);
        r.append(cs[i].as_str());
        assert(strings_view(cs@).subrange(0, i + 1).drop_last() =~= strings_view(cs@).subrange(
            0,
            i as int,
        ));
        i = i + 1;
    }
    assert(strings_view(cs@).subrange(0, i as int) =~= strings_view(cs@));
    r
}

} // verus!
