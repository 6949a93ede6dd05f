//! Relative paths declared by a manifest: what is accepted, and in which form.

use vstd::prelude::*;
use vstd::string::*;
use crate::text::{join, join_range, leading, lemma_leading_bounds, not_char, split, split_str, views};

verus! {

/// Why a declared path is refused.
#[derive(Clone, Copy, Debug, PartialEq, Eq, Structural)]
pub enum PathError {
    /// The path is the empty string.
    Empty,
    /// The path starts at the filesystem root.
    Absolute,
    /// Two separators follow each other, or the path ends in one.
    EmptyComponent,
    /// A component is `..`.
    ParentDir,
    /// The path starts with the component `.`.
    CurrentDir,
}

/// The component `.`.
pub open spec fn dot() -> Seq<char> {
    seq!['.']
}

/// The component `..`.
pub open spec fn dot_dot() -> Seq<char> {
    seq!['.', '.']
}

/// The separator between components.
pub open spec fn slash() -> Seq<char> {
    seq!['/']
}

/// What is wrong with one component, if anything; `first` says whether it
/// opens the path.
pub open spec fn component_error(part: Seq<char>, first: bool) -> Option<PathError> {
    if part.len() == 0 {
        Some(PathError::EmptyComponent)
    } else if part == dot_dot() {
        Some(PathError::ParentDir)
    } else if part == dot() && first {
        Some(PathError::CurrentDir)
    } else {
        None
    }
}

/// The components that remain of `parts`: a `.` after the first place is
/// dropped, and the first offending component decides the error.
pub open spec fn normalize(parts: Seq<Seq<char>>) -> Result<Seq<Seq<char>>, PathError>
    decreases parts.len(),
{
    if parts.len() == 0 {
        Ok(Seq::empty())
    } else {
        match normalize(parts.drop_last()) {
            Err(e) => Err(e),
            Ok(kept) => match component_error(parts.last(), parts.len() == 1) {
                Some(e) => Err(e),
                None => Ok(
                    if parts.last() == dot() {
                        kept
                    } else {
                        kept.push(parts.last())
                    },
                ),
            },
        }
    }
}

/// The normalized components of the declared path `s`, or why it is refused.
pub open spec fn rel_path(s: Seq<char>) -> Result<Seq<Seq<char>>, PathError> {
    if s.len() == 0 {
        Err(PathError::Empty)
    } else if s[0] == '/' {
        Err(PathError::Absolute)
    } else {
        normalize(split(s, '/'))
    }
}

/// An error among the first `j` components is the error of the whole.
pub proof fn lemma_prefix_error(parts: Seq<Seq<char>>, j: int, e: PathError)
    requires
        0 <= j <= parts.len(),
        normalize(parts.take(j)) == Err::<Seq<Seq<char>>, PathError>(e),
    ensures
        normalize(parts) == Err::<Seq<Seq<char>>, PathError>(e),
    decreases parts.len(),
{
    if j == parts.len() {
        assert(parts.take(j) =~= parts);
    } else {
        assert(parts.drop_last().take(j) =~= parts.take(j));
        lemma_prefix_error(parts.drop_last(), j, e);
    }
}

/// What `normalize` keeps is made of components of `parts` that are not
/// empty, not `.` and not `..`; it keeps something unless `parts` is empty;
/// and it succeeds only where no component is empty or `..`.
pub proof fn lemma_normalize_kept(parts: Seq<Seq<char>>)
    requires
        normalize(parts) is Ok,
    ensures
        parts.len() > 0 ==> normalize(parts)->Ok_0.len() > 0,
        forall|i: int|
            0 <= i < normalize(parts)->Ok_0.len() ==> {
                let part = #[trigger] normalize(parts)->Ok_0[i];
                &&& part.len() > 0
                &&& part != dot()
                &&& part != dot_dot()
                &&& parts.contains(part)
            },
        forall|i: int| 0 <= i < parts.len() ==> (#[trigger] parts[i]).len() > 0 && parts[i] != dot_dot(),
    decreases parts.len(),
{
    if parts.len() > 0 {
        let front = parts.drop_last();
        lemma_normalize_kept(front);
        let kept = normalize(front)->Ok_0;
        let all = normalize(parts)->Ok_0;
        assert forall|i: int| 0 <= i < all.len() implies {
            let part = #[trigger] all[i];
            &&& part.len() > 0
            &&& part != dot()
            &&& part != dot_dot()
            &&& parts.contains(part)
        } by {
            if i < kept.len() {
                assert(all[i] == kept[i]);
                let k = choose|k: int| 0 <= k < front.len() && front[k] == kept[i];
                assert(parts[k] == kept[i]);
            } else {
                assert(all[i] == parts.last());
                assert(parts[parts.len() - 1] == all[i]);
            }
        }
        assert forall|i: int| 0 <= i < parts.len() implies (#[trigger] parts[i]).len() > 0
            && parts[i] != dot_dot() by {
            if i < front.len() {
                assert(parts[i] == front[i]);
            }
        }
    }
}

/// No piece of a split holds the separator.
pub proof fn lemma_split_pieces(s: Seq<char>, sep: char)
    ensures
        split(s, sep).len() >= 1,
        forall|i: int, j: int|
            0 <= i < split(s, sep).len() && 0 <= j < split(s, sep)[i].len() ==> split(s, sep)[i][j]
                != sep,
    decreases s.len(),
{
    let n = leading(s, not_char(sep));
    lemma_leading_bounds(s, not_char(sep));
    if n < s.len() {
        let rest = split(s.skip(n as int + 1), sep);
        lemma_split_pieces(s.skip(n as int + 1), sep);
        assert forall|i: int, j: int|
            0 <= i < split(s, sep).len() && 0 <= j < split(s, sep)[i].len() implies split(s, sep)[i][j]
            != sep by {
            if i == 0 {
                assert(split(s, sep)[0] == s.take(n as int));
                assert(not_char(sep)(s[j]));
            } else {
                assert(split(s, sep)[i] == rest[i - 1]);
            }
        }
    } else {
        assert forall|i: int, j: int|
            0 <= i < split(s, sep).len() && 0 <= j < split(s, sep)[i].len() implies split(s, sep)[i][j]
            != sep by {
            assert(not_char(sep)(s[j]));
        }
    }
}

/// A declared path that is empty, starts with `/`, or has an empty or a `..`
/// component is refused.
pub proof fn lemma_unsafe_path_refused(s: Seq<char>)
    requires
        s.len() == 0 || s[0] == '/' || exists|i: int|
            0 <= i < split(s, '/').len() && ((#[trigger] split(s, '/')[i]).len() == 0 || split(
                s,
                '/',
            )[i] == dot_dot()),
    ensures
        rel_path(s) is Err,
{
    if s.len() > 0 && s[0] != '/' {
        if normalize(split(s, '/')) is Ok {
            lemma_normalize_kept(split(s, '/'));
        }
    }
}

/// An accepted path has at least one component, and none of its components
/// is empty, `.` or `..`, or holds a separator: joined below any directory it
/// stays inside that directory.
pub proof fn lemma_accepted_path_safe(s: Seq<char>)
    requires
        rel_path(s) is Ok,
    ensures
        rel_path(s)->Ok_0.len() > 0,
        forall|i: int|
            0 <= i < rel_path(s)->Ok_0.len() ==> {
                let part = #[trigger] rel_path(s)->Ok_0[i];
                &&& part.len() > 0
                &&& part != dot()
                &&& part != dot_dot()
                &&& !part.contains('/')
            },
{
    let parts = split(s, '/');
    lemma_split_pieces(s, '/');
    lemma_normalize_kept(parts);
    let kept = rel_path(s)->Ok_0;
    assert forall|i: int| 0 <= i < kept.len() implies !(#[trigger] kept[i]).contains('/') by {
        let k = choose|k: int| 0 <= k < parts.len() && parts[k] == kept[i];
        if kept[i].contains('/') {
            let j = choose|j: int| 0 <= j < kept[i].len() && kept[i][j] == '/';
            assert(parts[k][j] != '/');
        }
    }
}

/// Checks a declared path and returns it in normal form: its components
/// joined by single separators, without any `.` component.
pub fn validate_rel_path(path: &str) -> (r: Result<String, PathError>)
    ensures
        match rel_path(path@) {
            Ok(parts) => r is Ok && r->Ok_0@ == join(parts, slash()),
            Err(e) => r == Err::<String, PathError>(e),
        },
{
    let n: usize = path.unicode_len();
    if n == 0 {
        return Err(PathError::Empty);
    }
    if path.get_char(0) == '/' {
        return Err(PathError::Absolute);
    }
    let parts = split_str(path, '/');
    let ghost all = views(parts@);
    let mut kept: Vec<&str> = Vec::new();
    let mut i: usize = 0;
    proof {
        assert(all.take(0) =~= Seq::<Seq<char>>::empty());
        assert(views(kept@) =~= Seq::<Seq<char>>::empty());
    }
    while i < parts.len()
        invariant
            i <= parts@.len(),
            all == views(parts@),
            all == split(path@, '/'),
            path@.len() > 0,
            path@[0] != '/',
            normalize(all.take(i as int)) == Ok::<Seq<Seq<char>>, PathError>(views(kept@)),
        decreases parts@.len() - i,
    {
        let part: &str = parts[i];
        let len: usize = part.unicode_len();
        let ghost upto = all.take(i + 1);
        proof {
            assert(upto.drop_last() =~= all.take(i as int));
            assert(upto.last() == part@);
        }
        if len == 0 {
            proof {
                lemma_prefix_error(all, i + 1, PathError::EmptyComponent);
            }
            return Err(PathError::EmptyComponent);
        }
        let first_dot: bool = part.get_char(0) == '.';
        if len == 2 && first_dot && part.get_char(1) == '.' {
            proof {
                assert(part@ =~= dot_dot());
                lemma_prefix_error(all, i + 1, PathError::ParentDir);
            }
            return Err(PathError::ParentDir);
        }
        proof {
            if part@ == dot_dot() {
                assert(part@[1] == '.');
            }
        }
        if len == 1 && first_dot {
            proof {
                assert(part@ =~= dot());
            }
            if i == 0 {
                proof {
                    lemma_prefix_error(all, i + 1, PathError::CurrentDir);
                }
                return Err(PathError::CurrentDir);
            }
        } else {
            let ghost before = views(kept@);
            kept.push(part);
            proof {
                assert(views(kept@) =~= before.push(part@));
            }
        }
        i += 1;
    }
    proof {
        assert(all.take(i as int) =~= all);
        assert(views(kept@).subrange(0, kept@.len() as int) =~= views(kept@));
        reveal_strlit("/");
        assert("/"@ =~= slash());
    }
    Ok(join_range(&kept, 0, kept.len(), "/"))
}

} // verus!
