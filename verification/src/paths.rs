//! Unix path semantics the dock relies on, over plain strings: splitting a
//! path into components, its final name, and component-wise equality — what
//! `std::path::Path` does for `file_name` and `==`.
use vstd::prelude::*;
use crate::text::{chars_of, find, find_vec, lemma_find_from_char, rfind_char, rfind_char_vec, seq_eq, slice_of};

verus! {

/// `s` split at every `c`.
pub open spec fn split_all(s: Seq<char>, c: char) -> Seq<Seq<char>>
    decreases s.len(),
{
    match find(s, seq![c]) {
        Some(i) => if 0 <= i < s.len() {
            seq![s.subrange(0, i)] + split_all(s.subrange(i + 1, s.len() as int), c)
        } else {
            seq![s]
        },
        None => seq![s],
    }
}

/// The `Normal` and `..` components of a path: its `/`-separated segments
/// without empty ones and without `.`.
pub open spec fn named_segments(segs: Seq<Seq<char>>) -> Seq<Seq<char>>
    decreases segs.len(),
{
    if segs.len() == 0 {
        Seq::empty()
    } else {
        let rest = named_segments(segs.drop_last());
        let s = segs.last();
        if s.len() > 0 && s != seq!['.'] {
            rest.push(s)
        } else {
            rest
        }
    }
}

pub open spec fn components(p: Seq<char>) -> Seq<Seq<char>> {
    named_segments(split_all(p, '/'))
}

pub open spec fn is_absolute(p: Seq<char>) -> bool {
    p.len() > 0 && p[0] == '/'
}

/// Whether a relative path starts with a `.` component, which `Path` keeps.
pub open spec fn leading_cur_dir(p: Seq<char>) -> bool {
    !is_absolute(p) && split_all(p, '/').len() > 0 && split_all(p, '/')[0] == seq!['.']
}

/// `Path == Path`: the same components.
pub open spec fn same_path(a: Seq<char>, b: Seq<char>) -> bool {
    is_absolute(a) == is_absolute(b) && leading_cur_dir(a) == leading_cur_dir(b) && components(a)
        == components(b)
}

/// `Path::file_name`: the last component, unless the path ends in `..` or
/// has no named component at all.
pub open spec fn file_name(p: Seq<char>) -> Option<Seq<char>> {
    let c = components(p);
    if c.len() == 0 || c.last() == seq!['.', '.'] {
        None
    } else {
        Some(c.last())
    }
}

/// `Path::file_stem`: the file name without its last extension. A name
/// whose only dot leads it (`.bashrc`) is its own stem.
pub open spec fn file_stem(p: Seq<char>) -> Option<Seq<char>> {
    match file_name(p) {
        Some(n) => Some(
            match rfind_char(n, '.') {
                Some(i) => if i > 0 {
                    n.subrange(0, i)
                } else {
                    n
                },
                None => n,
            },
        ),
        None => None,
    }
}

pub fn split_all_vec(s: &Vec<char>, c: char) -> (r: Vec<Vec<char>>)
    ensures
        r@.map_values(|w: Vec<char>| w@) == split_all(s@, c),
    decreases s.len(),
{
    let mut sep: Vec<char> = Vec::new();
    sep.push(c);
    assert(sep@ =~= seq![c]);
    match find_vec(s, &sep) {
        Some(i) => {
            proof {
                crate::text::lemma_find_char(s@, c);
            }
            let head = slice_of(s, 0, i);
            let tail = slice_of(s, i + 1, s.len());
            let rest = split_all_vec(&tail, c);
            let mut out: Vec<Vec<char>> = Vec::new();
            out.push(head);
            let mut k: usize = 0;
            let ghost rv = rest@.map_values(|w: Vec<char>| w@);
            while k < rest.len()
                invariant
                    k <= rest@.len(),
                    rv == rest@.map_values(|w: Vec<char>| w@),
                    out@.map_values(|w: Vec<char>| w@) == seq![head@] + rv.take(k as int),
                decreases rest.len() - k,
            {
                let ghost before = out@.map_values(|w: Vec<char>| w@);
                out.push(rest[k].clone());
                assert(out@.map_values(|w: Vec<char>| w@) =~= before.push(rv[k as int]));
                assert(seq![head@] + rv.take(k + 1) =~= (seq![head@] + rv.take(k as int)).push(
                    rv[k as int],
                ));
                k = k + 1;
            }
            assert(rv.take(rest.len() as int) =~= rv);
            out
        },
        None => {
            let mut out: Vec<Vec<char>> = Vec::new();
            out.push(s.clone());
            assert(out@.map_values(|w: Vec<char>| w@) =~= seq![s@]);
            out
        },
    }
}

pub fn components_vec(p: &Vec<char>) -> (r: Vec<Vec<char>>)
    ensures
        r@.map_values(|w: Vec<char>| w@) == components(p@),
{
    let segs = split_all_vec(p, '/');
    let ghost sv = segs@.map_values(|w: Vec<char>| w@);
    let mut dot: Vec<char> = Vec::new();
    dot.push('.');
    assert(dot@ =~= seq!['.']);
    let mut out: Vec<Vec<char>> = Vec::new();
    let mut i: usize = 0;
    while i < segs.len()
        invariant
            i <= segs@.len(),
            sv == segs@.map_values(|w: Vec<char>| w@),
            dot@ == seq!['.'],
            out@.map_values(|w: Vec<char>| w@) == named_segments(sv.take(i as int)),
        decreases segs.len() - i,
    {
        assert(sv.take(i + 1).drop_last() =~= sv.take(i as int));
        let ghost before = out@.map_values(|w: Vec<char>| w@);
        if segs[i].len() > 0 && !seq_eq(&segs[i], &dot) {
            out.push(segs[i].clone());
            assert(out@.map_values(|w: Vec<char>| w@) =~= before.push(sv[i as int]));
        }
        i = i + 1;
    }
    assert(sv.take(segs.len() as int) =~= sv);
    out
}

fn leading_cur_dir_exec(p: &Vec<char>) -> (r: bool)
    ensures
        r == leading_cur_dir(p@),
{
    if p.len() > 0 && p[0] == '/' {
        return false;
    }
    let segs = split_all_vec(p, '/');
    let mut dot: Vec<char> = Vec::new();
    dot.push('.');
    assert(dot@ =~= seq!['.']);
    proof {
        assert(segs@.map_values(|w: Vec<char>| w@).len() == segs@.len());
    }
    segs.len() > 0 && seq_eq(&segs[0], &dot)
}

/// Whether `a` and `b` name the same path, component by component.
pub fn same_path_exec(a: &str, b: &str) -> (r: bool)
    ensures
        r == same_path(a@, b@),
{
    let av = chars_of(a);
    let bv = chars_of(b);
    let abs_a = av.len() > 0 && av[0] == '/';
    let abs_b = bv.len() > 0 && bv[0] == '/';
    if abs_a != abs_b || leading_cur_dir_exec(&av) != leading_cur_dir_exec(&bv) {
        return false;
    }
    let ca = components_vec(&av);
    let cb = components_vec(&bv);
    let ghost cav = ca@.map_values(|w: Vec<char>| w@);
    let ghost cbv = cb@.map_values(|w: Vec<char>| w@);
    assert(cav.len() == ca@.len() && cbv.len() == cb@.len());
    if ca.len() != cb.len() {
        assert(cav.len() != cbv.len());
        return false;
    }
    let mut i: usize = 0;
    while i < ca.len()
        invariant
            i <= ca@.len() == cb@.len(),
            cav == ca@.map_values(|w: Vec<char>| w@),
            cbv == cb@.map_values(|w: Vec<char>| w@),
            cav.len() == ca@.len() && cbv.len() == cb@.len(),
            cav == components(a@),
            cbv == components(b@),
            forall|j: int| 0 <= j < i ==> cav[j] == cbv[j],
        decreases ca.len() - i,
    {
        if !seq_eq(&ca[i], &cb[i]) {
            assert(cav[i as int] != cbv[i as int]);
            assert(cav != cbv);
            return false;
        }
        i = i + 1;
    }
    assert(cav =~= cbv);
    true
}

/// The final component of `p`, if it names something.
pub fn file_name_exec(p: &str) -> (r: Option<Vec<char>>)
    ensures
        match r {
            Some(n) => file_name(p@) == Some(n@),
            None => file_name(p@) is None,
        },
{
    let c = components_vec(&chars_of(p));
    proof {
        assert(c@.map_values(|w: Vec<char>| w@).len() == c@.len());
    }
    if c.len() == 0 {
        return None;
    }
    let last = &c[c.len() - 1];
    let mut dd: Vec<char> = Vec::new();
    dd.push('.');
    dd.push('.');
    assert(dd@ =~= seq!['.', '.']);
    if seq_eq(last, &dd) {
        None
    } else {
        Some(last.clone())
    }
}


/// The file name of `p` without its last extension.
pub fn file_stem_exec(p: &str) -> (r: Option<Vec<char>>)
    ensures
        match r {
            Some(n) => file_stem(p@) == Some(n@),
            None => file_stem(p@) is None,
        },
{
    match file_name_exec(p) {
        Some(n) => match rfind_char_vec(&n, '.') {
            Some(i) => {
                proof {
                    crate::text::lemma_rfind_bound(n@, '.', n@.len() as int);
                }
                if i > 0 {
                    Some(slice_of(&n, 0, i))
                } else {
                    Some(n)
                }
            },
            None => Some(n),
        },
        None => None,
    }
}

} // verus!
