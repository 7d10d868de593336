//! `/`-separated paths: components, file names, joining, and files under
//! the user's home directory.
use vstd::prelude::*;

use crate::text::{extend_str, from_chars, slice_to_vec, split_on, split_on_exec, to_chars, views};

verus! {

/// `dirs::home_dir`: the current user's home directory, when one can be
/// found. It reads the environment (and, failing that, the password
/// database), so nothing is stated of the result.
#[verifier::external_body]
pub fn home_dir() -> (r: Option<String>) {
    dirs::home_dir().map(|h| h.display().to_string())
}

/// `PathBuf::join` of a relative `rel` onto `base`, as text: a `/` goes
/// between them unless `base` is empty or already ends with one.
pub open spec fn joined(base: Seq<char>, rel: Seq<char>) -> Seq<char> {
    if base.len() == 0 || base.last() == '/' {
        base + rel
    } else {
        base + seq!['/'] + rel
    }
}

/// Join the relative path `rel` onto `base` (see `joined`).
pub fn join_path(base: &str, rel: &str) -> (r: String)
    ensures
        r@ == joined(base@, rel@),
{
    let mut v = to_chars(base);
    if v.len() > 0 && v[v.len() - 1] != '/' {
        v.push('/');
    }
    extend_str(&mut v, rel);
    from_chars(v.as_slice())
}

/// A file under the home directory, or `~/<rel>` written out when there is
/// no home directory.
pub open spec fn home_file(home: Option<Seq<char>>, rel: Seq<char>) -> Seq<char> {
    match home {
        Some(h) => joined(h, rel),
        None => seq!['~', '/'] + rel,
    }
}

/// The path of `rel` under `home` (see `home_file`).
pub fn home_file_path(home: Option<&str>, rel: &str) -> (r: String)
    ensures
        r@ == home_file(
            match home {
                Some(h) => Some(h@),
                None => None,
            },
            rel@,
        ),
{
    match home {
        Some(h) => join_path(h, rel),
        None => {
            let mut v = vec!['~', '/'];
            assert(v@ =~= seq!['~', '/']);
            extend_str(&mut v, rel);
            from_chars(v.as_slice())
        },
    }
}

/// The pieces of a path that name something: not empty, not `.`.
pub open spec fn named_pieces(ps: Seq<Seq<char>>) -> Seq<Seq<char>>
    decreases ps.len(),
{
    if ps.len() == 0 {
        Seq::empty()
    } else {
        let rest = named_pieces(ps.drop_last());
        if ps.last().len() > 0 && ps.last() != seq!['.'] {
            rest.push(ps.last())
        } else {
            rest
        }
    }
}

/// `Path::components` of a `/`-separated path, each as text: the root `/`
/// or a leading `.` first, then every named piece.
pub open spec fn components(p: Seq<char>) -> Seq<Seq<char>> {
    let ps = split_on(p, '/');
    let lead = if p.len() > 0 && p[0] == '/' {
        seq![seq!['/']]
    } else if ps[0] == seq!['.'] {
        seq![seq!['.']]
    } else {
        Seq::empty()
    };
    lead + named_pieces(ps)
}

/// `Path::file_name`: the last named piece, unless it is `..`.
pub open spec fn file_name(p: Seq<char>) -> Option<Seq<char>> {
    let np = named_pieces(split_on(p, '/'));
    if np.len() > 0 && np.last() != seq!['.', '.'] {
        Some(np.last())
    } else {
        None
    }
}

pub fn named_pieces_exec(ps: &Vec<Vec<char>>) -> (r: Vec<Vec<char>>)
    ensures
        views(r@) == named_pieces(views(ps@)),
{
    let ghost pv = views(ps@);
    let mut r: Vec<Vec<char>> = Vec::new();
    let mut i: usize = 0;
    while i < ps.len()
        invariant
            i <= ps@.len(),
            pv == views(ps@),
            views(r@) == named_pieces(pv.take(i as int)),
        decreases ps@.len() - i,
    {
        let x = &ps[i];
        let dot = x.len() == 1 && x[0] == '.';
        assert(pv.take(i + 1).drop_last() =~= pv.take(i as int));
        assert(pv.take(i + 1).last() == x@);
        if x.len() > 0 && !dot {
            proof {
                assert(x@ != seq!['.']);
            }
            let y = slice_to_vec(x.as_slice(), 0, x.len());
            assert(y@ =~= x@);
            let ghost before = views(r@);
            r.push(y);
            assert(views(r@) =~= before.push(x@));
        } else {
            proof {
                if x@.len() > 0 {
                    assert(x@ =~= seq!['.']);
                }
            }
        }
        i = i + 1;
    }
    assert(pv.take(ps@.len() as int) =~= pv);
    r
}

pub fn components_exec(p: &[char]) -> (r: Vec<Vec<char>>)
    ensures
        views(r@) == components(p@),
{
    let ps = split_on_exec(p, '/');
    proof {
        crate::text::lemma_split_on_nonempty(p@, '/');
    }
    let mut r: Vec<Vec<char>> = Vec::new();
    if p.len() > 0 && p[0] == '/' {
        let d = vec!['/'];
        assert(d@ =~= seq!['/']);
        r.push(d);
        assert(views(r@) =~= seq![seq!['/']]);
    } else if ps[0].len() == 1 && ps[0][0] == '.' {
        let d = vec!['.'];
        assert(d@ =~= seq!['.']);
        r.push(d);
        assert(ps@[0]@ =~= seq!['.']);
        assert(views(r@) =~= seq![seq!['.']]);
    } else {
        proof {
            if ps@[0]@ == seq!['.'] {
                assert(ps@[0]@.len() == 1);
                assert(ps@[0]@[0] == '.');
            }
        }
    }
    assert(views(ps@)[0] == ps@[0]@);
    let named = named_pieces_exec(&ps);
    let ghost lead = views(r@);
    let mut i: usize = 0;
    while i < named.len()
        invariant
            i <= named@.len(),
            views(r@) == lead + views(named@).take(i as int),
        decreases named@.len() - i,
    {
        let y = slice_to_vec(named[i].as_slice(), 0, named[i].len());
        assert(y@ =~= named@[i as int]@);
        let ghost before = views(r@);
        r.push(y);
        assert(views(r@) =~= before.push(y@));
        assert(views(named@).take(i + 1) =~= views(named@).take(i as int).push(named@[i as int]@));
        assert(views(r@) =~= lead + views(named@).take(i + 1));
        i = i + 1;
    }
    assert(views(named@).take(named@.len() as int) =~= views(named@));
    assert(lead =~= (if p@.len() > 0 && p@[0] == '/' {
        seq![seq!['/']]
    } else if views(ps@)[0] == seq!['.'] {
        seq![seq!['.']]
    } else {
        Seq::empty()
    }));
    r
}

/// The file name of `p` (see `file_name`).
pub fn file_name_exec(p: &str) -> (r: Option<Vec<char>>)
    ensures
        match r {
            Some(n) => file_name(p@) == Some(n@),
            None => file_name(p@) is None,
        },
{
    let c = to_chars(p);
    let ps = split_on_exec(c.as_slice(), '/');
    let np = named_pieces_exec(&ps);
    if np.len() > 0 {
        let last = &np[np.len() - 1];
        let is_up = last.len() == 2 && last[0] == '.' && last[1] == '.';
        assert(views(np@).last() == last@);
        if is_up {
            assert(last@ =~= seq!['.', '.']);
            None
        } else {
            proof {
                if last@ == seq!['.', '.'] {
                    assert(last@.len() == 2 && last@[0] == '.' && last@[1] == '.');
                }
            }
            Some(slice_to_vec(last.as_slice(), 0, last.len()))
        }
    } else {
        None
    }
}

} // verus!
