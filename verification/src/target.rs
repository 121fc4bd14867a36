//! Target naming: the directory in which the clone of a repository URL is put.
//!
//! A repository URL ends in `.git`; what stands before that suffix is cut at
//! every `/`, and the last two pieces, owner and name, make the directory
//! name `<owner>_<name>` under the base directory.

use vstd::prelude::*;
use vstd::string::*;

verus! {

/// The suffix that every repository URL carries.
pub open spec fn git_suffix() -> Seq<char> {
    seq!['.', 'g', 'i', 't']
}

/// Whether `url` ends in `.git`.
pub open spec fn ends_with_git(url: Seq<char>) -> bool {
    url.len() >= 4 && url.subrange(url.len() - 4, url.len() as int) == git_suffix()
}

/// `url` without its last four characters.
pub open spec fn stem(url: Seq<char>) -> Seq<char> {
    url.take(url.len() - 4)
}

/// The pieces between the `/` characters of `s`. There is always at least one
/// piece; a `/` at either end, or two in a row, give an empty piece.
pub open spec fn segments(s: Seq<char>) -> Seq<Seq<char>>
    decreases s.len(),
{
    if s.len() == 0 {
        seq![Seq::<char>::empty()]
    } else {
        let before = segments(s.drop_last());
        if s.last() == '/' {
            before.push(Seq::<char>::empty())
        } else {
            before.drop_last().push(before.last().push(s.last()))
        }
    }
}

/// A repository URL that can be named: it ends in `.git`, and what stands
/// before the suffix has at least two pieces.
pub open spec fn well_formed_url(url: Seq<char>) -> bool {
    ends_with_git(url) && segments(stem(url)).len() >= 2
}

/// The last piece but one of a well-formed URL.
pub open spec fn repo_owner(url: Seq<char>) -> Seq<char> {
    let pieces = segments(stem(url));
    pieces[pieces.len() - 2]
}

/// The last piece of a well-formed URL.
pub open spec fn repo_name(url: Seq<char>) -> Seq<char> {
    segments(stem(url)).last()
}

/// The directory name of a well-formed URL: `<owner>_<name>`.
pub open spec fn target_dir_name(url: Seq<char>) -> Seq<char> {
    repo_owner(url) + seq!['_'] + repo_name(url)
}

/// `name` placed under `base`. A `/` is put between the two unless `base` is
/// empty or brings its own.
pub open spec fn join_path(base: Seq<char>, name: Seq<char>) -> Seq<char> {
    if base.len() == 0 {
        name
    } else if base.last() == '/' {
        base + name
    } else {
        base + seq!['/'] + name
    }
}

/// The target path of a well-formed URL under `base_dir`.
pub open spec fn target_path(url: Seq<char>, base_dir: Seq<char>) -> Seq<char> {
    join_path(base_dir, target_dir_name(url))
}

/// Two well-formed URLs whose owners and names differ and which are named
/// alike all the same, because a `_` of one owner or name is read as the
/// joint of the other: `a_b` with `c`, and `a` with `b_c`.
pub open spec fn names_collide(u1: Seq<char>, u2: Seq<char>) -> bool {
    repo_owner(u1).len() != repo_owner(u2).len() && target_dir_name(u1) == target_dir_name(u2)
}

/// There is always a piece.
pub proof fn lemma_segments_nonempty(s: Seq<char>)
    ensures
        segments(s).len() >= 1,
    decreases s.len(),
{
    if s.len() > 0 {
        lemma_segments_nonempty(s.drop_last());
    }
}

/// Placing under one base keeps different names apart.
pub proof fn lemma_join_path_injective(base: Seq<char>, n1: Seq<char>, n2: Seq<char>)
    requires
        join_path(base, n1) == join_path(base, n2),
    ensures
        n1 == n2,
{
    if base.len() == 0 {
    } else if base.last() == '/' {
        assert((base + n1).subrange(base.len() as int, (base + n1).len() as int) =~= n1);
        assert((base + n2).subrange(base.len() as int, (base + n2).len() as int) =~= n2);
    } else {
        let b = base + seq!['/'];
        assert((b + n1).subrange(b.len() as int, (b + n1).len() as int) =~= n1);
        assert((b + n2).subrange(b.len() as int, (b + n2).len() as int) =~= n2);
    }
}

/// Naming is determined by the URL and the base directory: equal URLs get
/// equal targets.
pub proof fn lemma_same_url_same_target(u1: Seq<char>, u2: Seq<char>, base_dir: Seq<char>)
    requires
        well_formed_url(u1),
        well_formed_url(u2),
        u1 == u2,
    ensures
        target_path(u1, base_dir) == target_path(u2, base_dir),
{
}

/// Two URLs that differ in owner or in name get different targets, unless
/// their names collide.
pub proof fn lemma_distinct_targets(u1: Seq<char>, u2: Seq<char>, base_dir: Seq<char>)
    requires
        well_formed_url(u1),
        well_formed_url(u2),
        repo_owner(u1) != repo_owner(u2) || repo_name(u1) != repo_name(u2),
        !names_collide(u1, u2),
    ensures
        target_path(u1, base_dir) != target_path(u2, base_dir),
{
    let d1 = target_dir_name(u1);
    let d2 = target_dir_name(u2);
    if d1 == d2 {
        let o1 = repo_owner(u1);
        let o2 = repo_owner(u2);
        let len = o1.len() as int;
        assert(d1.take(len) =~= o1);
        assert(d2.take(len) =~= o2);
        assert(d1.skip(len + 1) =~= repo_name(u1));
        assert(d2.skip(len + 1) =~= repo_name(u2));
        assert(false);
    }
    if target_path(u1, base_dir) == target_path(u2, base_dir) {
        lemma_join_path_injective(base_dir, d1, d2);
    }
}

/// The characters of a string, in a vector.
fn chars_of(s: &str) -> (chars: Vec<char>)
    ensures
        chars@ == s@,
{
    broadcast use vstd::string::group_string_axioms;

    let mut chars: Vec<char> = Vec::new();
    for c in it: s.chars()
        invariant
            it.seq() == s@,
            chars@ == it.seq().take(it.index() as int),
    {
        chars.push(c);
    }
    chars
}

/// Where the last two pieces of the first `end` characters start: the start
/// of the last piece, and before it the start of the piece in front of it, if
/// there is one.
fn last_two_pieces(chars: &Vec<char>, end: usize) -> (starts: (Option<usize>, usize))
    requires
        end <= chars.len(),
    ensures
        starts.1 <= end,
        segments(chars@.take(end as int)).last() == chars@.subrange(starts.1 as int, end as int),
        starts.0 is Some <==> segments(chars@.take(end as int)).len() >= 2,
        starts.0 matches Some(owner_start) ==> {
            let pieces = segments(chars@.take(end as int));
            &&& owner_start < starts.1
            &&& pieces[pieces.len() - 2] == chars@.subrange(
                owner_start as int,
                starts.1 as int - 1,
            )
        },
{
    let mut previous: Option<usize> = None;
    let mut current: usize = 0;
    let mut k: usize = 0;
    assert(chars@.take(0) =~= Seq::<char>::empty());
    assert(chars@.subrange(0, 0) =~= Seq::<char>::empty());
    while k < end
        invariant
            k <= end <= chars.len(),
            current <= k,
            segments(chars@.take(k as int)).last() == chars@.subrange(current as int, k as int),
            previous is Some <==> segments(chars@.take(k as int)).len() >= 2,
            previous matches Some(owner_start) ==> {
                let pieces = segments(chars@.take(k as int));
                &&& owner_start < current
                &&& pieces[pieces.len() - 2] == chars@.subrange(
                    owner_start as int,
                    current as int - 1,
                )
            },
        decreases end - k,
    {
        let ghost seen = chars@.take(k as int);
        let ghost grown = chars@.take(k as int + 1);
        proof {
            assert(grown.drop_last() =~= seen);
            assert(grown.last() == chars@[k as int]);
            lemma_segments_nonempty(seen);
        }
        if chars[k] == '/' {
            proof {
                assert(chars@.subrange(current as int, k as int + 1 - 1) =~= chars@.subrange(
                    current as int,
                    k as int,
                ));
                assert(chars@.subrange(k as int + 1, k as int + 1) =~= Seq::<char>::empty());
            }
            previous = Some(current);
            current = k + 1;
        } else {
            proof {
                assert(chars@.subrange(current as int, k as int + 1) =~= chars@.subrange(
                    current as int,
                    k as int,
                ).push(chars@[k as int]));
            }
        }
        k = k + 1;
    }
    (previous, current)
}

/// Whether `url` is a repository URL that can be named.
pub fn is_well_formed_url(url: &str) -> (ok: bool)
    ensures
        ok == well_formed_url(url@),
{
    let chars = chars_of(url);
    let n: usize = chars.len();
    if n < 4 {
        return false;
    }
    let suffixed = chars[n - 4] == '.' && chars[n - 3] == 'g' && chars[n - 2] == 'i' && chars[n
        - 1] == 't';
    proof {
        let tail = url@.subrange(n - 4, n as int);
        assert(tail.len() == 4);
        assert(suffixed ==> tail =~= git_suffix());
        assert(!suffixed ==> tail != git_suffix()) by {
            if !suffixed {
                assert(tail[0] == url@[n - 4] && tail[1] == url@[n - 3] && tail[2] == url@[n - 2]
                    && tail[3] == url@[n - 1]);
                assert(git_suffix()[0] == '.' && git_suffix()[1] == 'g' && git_suffix()[2] == 'i'
                    && git_suffix()[3] == 't');
            }
        }
    }
    if !suffixed {
        return false;
    }
    let starts = last_two_pieces(&chars, n - 4);
    starts.0.is_some()
}

/// The directory name `<owner>_<name>` of a repository URL.
pub fn target_name(url: &str) -> (name: String)
    requires
        well_formed_url(url@),
    ensures
        name@ == target_dir_name(url@),
{
    let chars = chars_of(url);
    let end: usize = chars.len() - 4;
    let starts = last_two_pieces(&chars, end);
    let owner_start: usize = starts.0.unwrap();
    let owner = url.substring_char(owner_start, starts.1 - 1);
    let repo = url.substring_char(starts.1, end);
    let mut name = String::from_str(owner);
    name.append("_");
    name.append(repo);
    proof {
        reveal_strlit("_");
        assert("_"@ =~= seq!['_']);
    }
    name
}

/// `name` placed under `base_dir`.
pub fn place_under(base_dir: &str, name: &str) -> (path: String)
    ensures
        path@ == join_path(base_dir@, name@),
{
    let base = chars_of(base_dir);
    let n: usize = base.len();
    if n == 0 {
        return String::from_str(name);
    }
    let mut path = String::from_str(base_dir);
    if base[n - 1] != '/' {
        path.append("/");
        proof {
            reveal_strlit("/");
            assert("/"@ =~= seq!['/']);
        }
    }
    path.append(name);
    path
}

/// The target path of a repository URL under `base_dir`:
/// `<base_dir>/<owner>_<name>`.
pub fn get_target(url: &str, base_dir: &str) -> (target: String)
    requires
        well_formed_url(url@),
    ensures
        target@ == target_path(url@, base_dir@),
{
    let name = target_name(url);
    place_under(base_dir, name.as_str())
}

} // verus!
