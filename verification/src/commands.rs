//! The command set: a fixed family of handlers, each a pure function of
//! (VFS, current path, argument vector) returning a textual result.
//!
//! Errors are in-band strings beginning with `Error:`; the session uses
//! that prefix as the signal to suppress state updates.

use crate::strutil::{
    clean_token, contains_string, contains_sub, join_with, lemma_filter_subset,
    lemma_join_slash_shape, lemma_split_rec_elems, lemma_split_rec_no_sep, lemma_trim_end_props,
    no_char, nonempty_pred, segments, spec_contains, spec_join, spec_segments, spec_split,
    spec_starts_with, spec_trim_end_slashes, split_char, split_rec, starts_with, str_eq,
    trim_end_slashes, valid_path,
};
use vstd::prelude::*;

verus! {

/// The last non-empty `/`-separated segment of `current`, or the empty
/// sequence when there is none (at the root).
pub open spec fn spec_last_segment(current: Seq<char>) -> Seq<char> {
    let segs = spec_segments(current);
    if segs.len() == 0 {
        Seq::empty()
    } else {
        segs.last()
    }
}

/// The segment that follows the first occurrence of `x` in `parts`, if any.
pub open spec fn token_after(parts: Seq<Seq<char>>, x: Seq<char>) -> Option<Seq<char>>
    decreases parts.len(),
{
    if parts.len() == 0 {
        None
    } else if parts[0] == x {
        if parts.len() >= 2 {
            Some(parts[1])
        } else {
            None
        }
    } else {
        token_after(parts.skip(1), x)
    }
}

/// The listing token contributed by one VFS entry: for an entry that starts
/// with the current path, the segment following the first occurrence of the
/// current path's final segment in the entry's `/`-split.
pub open spec fn entry_token(entry: Seq<char>, current: Seq<char>, last: Seq<char>) -> Option<
    Seq<char>,
> {
    if spec_starts_with(entry, current) {
        token_after(spec_split(entry, '/'), last)
    } else {
        None
    }
}

/// The tokens listed by `ls`, deduplicated in first-occurrence order, with
/// empty tokens dropped.
pub open spec fn ls_token_list(vfs: Seq<Seq<char>>, current: Seq<char>) -> Seq<Seq<char>>
    decreases vfs.len(),
{
    if vfs.len() == 0 {
        Seq::empty()
    } else {
        let prev = ls_token_list(vfs.drop_last(), current);
        match entry_token(vfs.last(), current, spec_last_segment(current)) {
            Some(t) => if t.len() > 0 && !prev.contains(t) {
                prev.push(t)
            } else {
                prev
            },
            None => prev,
        }
    }
}

/// The result of `ls`: the listing tokens joined by newlines.
pub open spec fn spec_ls(vfs: Seq<Seq<char>>, current: Seq<char>) -> Seq<char> {
    spec_join(ls_token_list(vfs, current), "\n"@)
}

/// The result of `cd`: the parent for `..`, the root for `/`, and otherwise
/// the candidate directory with a trailing `/` if some VFS entry starts with
/// the candidate, or an in-band error.
pub open spec fn spec_cd(vfs: Seq<Seq<char>>, current: Seq<char>, args: Seq<Seq<char>>) -> Seq<
    char,
> {
    if args.len() == 0 {
        "Error: not enough arguments"@
    } else if args[0] == ".."@ {
        let segs = spec_segments(current);
        if segs.len() <= 1 {
            "/"@
        } else {
            "/"@ + spec_join(segs.drop_last(), "/"@)
        }
    } else if args[0] == "/"@ {
        "/"@
    } else {
        let cand = spec_trim_end_slashes(current) + "/"@ + args[0];
        if exists|k: int| 0 <= k < vfs.len() && spec_starts_with(#[trigger] vfs[k], cand) {
            cand + "/"@
        } else {
            "Error: path not found"@
        }
    }
}

/// The first VFS entry, in iteration order, that contains `needle` as a
/// substring, or an in-band error when none does.
pub open spec fn find_first(vfs: Seq<Seq<char>>, needle: Seq<char>) -> Seq<char>
    decreases vfs.len(),
{
    if vfs.len() == 0 {
        "Error: path not found"@
    } else if spec_contains(vfs[0], needle) {
        vfs[0]
    } else {
        find_first(vfs.skip(1), needle)
    }
}

/// The result of `find`.
pub open spec fn spec_find(vfs: Seq<Seq<char>>, args: Seq<Seq<char>>) -> Seq<char> {
    if args.len() == 0 {
        "Error: not enough arguments"@
    } else {
        find_first(vfs, args[0])
    }
}

/// The result of `chmod`: the mode token is accepted but not interpreted;
/// the second argument must be an exact member of the VFS.
pub open spec fn spec_chmod(vfs: Seq<Seq<char>>, args: Seq<Seq<char>>) -> Seq<char> {
    if args.len() < 2 {
        "Error: not enough arguments"@
    } else if vfs.contains(args[1]) {
        "Changed permissions for "@ + args[1]
    } else {
        "Error: file not found"@
    }
}

/// A command handler: a pure function of the VFS, the current path and the
/// argument vector. `spec_run` is the handler's functional specification,
/// and `run` computes exactly it.
pub trait BaseCommand {
    /// What the handler returns, as a function of its inputs.
    spec fn spec_run(vfs: Seq<Seq<char>>, current_path: Seq<char>, args: Seq<Seq<char>>) -> Seq<
        char,
    >;

    /// Execute the handler.
    fn run(vfs: &Vec<String>, current_path: &str, args: &[&str]) -> (result: String)
        ensures
            result@ == Self::spec_run(vfs.deep_view(), current_path@, args.deep_view()),
    ;
}

/// The segment following the first occurrence of `x` in `parts`, if any.
fn token_after_exec(parts: &Vec<String>, x: &str) -> (r: Option<String>)
    ensures
        match r {
            Some(t) => token_after(parts.deep_view(), x@) == Some(t@),
            None => token_after(parts.deep_view(), x@) == None::<Seq<char>>,
        },
{
    let ghost dv = parts.deep_view();
    let mut i: usize = 0;
    proof {
        assert(dv.skip(0) =~= dv);
    }
    while i < parts.len()
        invariant
            i <= parts.len(),
            dv == parts.deep_view(),
            dv.len() == parts@.len(),
            token_after(dv, x@) == token_after(dv.skip(i as int), x@),
        decreases parts.len() - i,
    {
        proof {
            assert(dv.skip(i as int)[0] == dv[i as int]);
            assert(dv.skip(i as int).skip(1) =~= dv.skip(i as int + 1));
        }
        if str_eq(parts[i].as_str(), x) {
            if i + 1 < parts.len() {
                proof {
                    assert(dv.skip(i as int)[1] == dv[i as int + 1]);
                }
                return Some(parts[i + 1].clone());
            } else {
                return None;
            }
        }
        i = i + 1;
    }
    proof {
        assert(dv.skip(parts@.len() as int) =~= Seq::<Seq<char>>::empty());
    }
    None
}

/// Some VFS entry starts with `p`.
fn any_starts_with(vfs: &Vec<String>, p: &str) -> (r: bool)
    ensures
        r == exists|k: int|
            0 <= k < vfs.deep_view().len() && spec_starts_with(
                #[trigger] vfs.deep_view()[k],
                p@,
            ),
{
    let ghost dv = vfs.deep_view();
    let mut i: usize = 0;
    while i < vfs.len()
        invariant
            i <= vfs.len(),
            dv == vfs.deep_view(),
            dv.len() == vfs@.len(),
            forall|k: int| 0 <= k < i ==> !spec_starts_with(#[trigger] dv[k], p@),
        decreases vfs.len() - i,
    {
        if starts_with(vfs[i].as_str(), p) {
            proof {
                assert(spec_starts_with(dv[i as int], p@));
            }
            return true;
        }
        i = i + 1;
    }
    false
}

/// Lists the directory entries visible under the current path.
pub struct LSCommand;

impl BaseCommand for LSCommand {
    open spec fn spec_run(vfs: Seq<Seq<char>>, current_path: Seq<char>, args: Seq<Seq<char>>) -> Seq<
        char,
    > {
        spec_ls(vfs, current_path)
    }

    fn run(vfs: &Vec<String>, current_path: &str, _args: &[&str]) -> (result: String) {
        let ghost dv = vfs.deep_view();
        let segs = segments(current_path);
        let last: String = if segs.len() == 0 {
            String::new()
        } else {
            let ghost sdv = segs.deep_view();
            proof {
                assert(sdv[sdv.len() - 1] == segs@[segs@.len() - 1]@);
            }
            segs[segs.len() - 1].clone()
        };
        proof {
            assert(last@ == spec_last_segment(current_path@));
        }
        let mut toks: Vec<String> = Vec::new();
        let mut k: usize = 0;
        proof {
            assert(dv.take(0) =~= Seq::<Seq<char>>::empty());
            assert(toks.deep_view() =~= Seq::<Seq<char>>::empty());
        }
        while k < vfs.len()
            invariant
                k <= vfs.len(),
                dv == vfs.deep_view(),
                dv.len() == vfs@.len(),
                last@ == spec_last_segment(current_path@),
                toks.deep_view() == ls_token_list(dv.take(k as int), current_path@),
            decreases vfs.len() - k,
        {
            proof {
                assert(dv.take(k as int + 1).drop_last() =~= dv.take(k as int));
                assert(dv.take(k as int + 1).last() == dv[k as int]);
                assert(dv[k as int] == vfs@[k as int]@);
            }
            let entry = &vfs[k];
            if starts_with(entry.as_str(), current_path) {
                let parts = split_char(entry.as_str(), '/');
                match token_after_exec(&parts, last.as_str()) {
                    Some(t) => {
                        if !t.as_str().is_empty() && !contains_string(&toks, t.as_str()) {
                            let ghost prev = toks.deep_view();
                            let ghost tv = t@;
                            toks.push(t);
                            proof {
                                assert(toks.deep_view() =~= prev.push(tv));
                            }
                        }
                    },
                    None => {},
                }
            }
            k = k + 1;
        }
        proof {
            assert(dv.take(vfs@.len() as int) =~= dv);
        }
        join_with(&toks, "\n")
    }
}

/// Changes the current directory: `..`, `/`, or a candidate subdirectory
/// resolved by prefix existence against the VFS.
pub struct CDCommand;

impl BaseCommand for CDCommand {
    open spec fn spec_run(vfs: Seq<Seq<char>>, current_path: Seq<char>, args: Seq<Seq<char>>) -> Seq<
        char,
    > {
        spec_cd(vfs, current_path, args)
    }

    fn run(vfs: &Vec<String>, current_path: &str, args: &[&str]) -> (result: String) {
        if args.len() == 0 {
            return String::from_str("Error: not enough arguments");
        }
        let a0: &str = args[0];
        proof {
            assert(a0@ == args.deep_view()[0]);
        }
        if str_eq(a0, "..") {
            let mut segs = segments(current_path);
            if segs.len() <= 1 {
                return String::from_str("/");
            }
            let ghost before = segs.deep_view();
            segs.pop();
            proof {
                assert(segs.deep_view() =~= before.drop_last());
            }
            let joined = join_with(&segs, "/");
            let mut out = String::from_str("/");
            out.append(joined.as_str());
            return out;
        }
        if str_eq(a0, "/") {
            return String::from_str("/");
        }
        let trimmed = trim_end_slashes(current_path);
        let mut cand = trimmed.to_owned();
        cand.append("/");
        cand.append(a0);
        if any_starts_with(vfs, cand.as_str()) {
            let mut out = cand;
            out.append("/");
            out
        } else {
            String::from_str("Error: path not found")
        }
    }
}

/// Signals a termination request to the driver.
pub struct ExitCommand;

impl BaseCommand for ExitCommand {
    open spec fn spec_run(vfs: Seq<Seq<char>>, current_path: Seq<char>, args: Seq<Seq<char>>) -> Seq<
        char,
    > {
        "exit"@
    }

    fn run(_vfs: &Vec<String>, _current_path: &str, _args: &[&str]) -> (result: String) {
        String::from_str("exit")
    }
}

/// Returns the first VFS entry containing the given needle as a substring.
pub struct FindCommand;

impl BaseCommand for FindCommand {
    open spec fn spec_run(vfs: Seq<Seq<char>>, current_path: Seq<char>, args: Seq<Seq<char>>) -> Seq<
        char,
    > {
        spec_find(vfs, args)
    }

    #[verifier::loop_isolation(false)]
    fn run(vfs: &Vec<String>, _current_path: &str, args: &[&str]) -> (result: String) {
        if args.len() == 0 {
            return String::from_str("Error: not enough arguments");
        }
        let needle: &str = args[0];
        proof {
            assert(needle@ == args.deep_view()[0]);
        }
        let ghost dv = vfs.deep_view();
        let mut i: usize = 0;
        proof {
            assert(dv.skip(0) =~= dv);
        }
        while i < vfs.len()
            invariant
                i <= vfs.len(),
                dv == vfs.deep_view(),
                dv.len() == vfs@.len(),
                find_first(dv, needle@) == find_first(dv.skip(i as int), needle@),
            decreases vfs.len() - i,
        {
            proof {
                assert(dv.skip(i as int)[0] == dv[i as int]);
                assert(dv.skip(i as int).skip(1) =~= dv.skip(i as int + 1));
                assert(dv[i as int] == vfs@[i as int]@);
            }
            if contains_sub(vfs[i].as_str(), needle) {
                proof {
                    assert(spec_contains(dv.skip(i as int)[0], needle@));
                    assert(find_first(dv.skip(i as int), needle@) == dv[i as int]);
                }
                return vfs[i].clone();
            }
            i = i + 1;
        }
        proof {
            assert(dv.skip(vfs@.len() as int) =~= Seq::<Seq<char>>::empty());
        }
        String::from_str("Error: path not found")
    }
}

/// Signals a screen-clear cue to the driver.
pub struct ClearCommand;

impl BaseCommand for ClearCommand {
    open spec fn spec_run(vfs: Seq<Seq<char>>, current_path: Seq<char>, args: Seq<Seq<char>>) -> Seq<
        char,
    > {
        "clear"@
    }

    fn run(_vfs: &Vec<String>, _current_path: &str, _args: &[&str]) -> (result: String) {
        String::from_str("clear")
    }
}

/// Acknowledges a permission change for an exact VFS member; state is not
/// modified.
pub struct ChmodCommand;

impl BaseCommand for ChmodCommand {
    open spec fn spec_run(vfs: Seq<Seq<char>>, current_path: Seq<char>, args: Seq<Seq<char>>) -> Seq<
        char,
    > {
        spec_chmod(vfs, args)
    }

    fn run(vfs: &Vec<String>, _current_path: &str, args: &[&str]) -> (result: String) {
        if args.len() < 2 {
            return String::from_str("Error: not enough arguments");
        }
        let path: &str = args[1];
        proof {
            assert(path@ == args.deep_view()[1]);
        }
        if contains_string(vfs, path) {
            let mut out = String::from_str("Changed permissions for ");
            out.append(path);
            out
        } else {
            String::from_str("Error: file not found")
        }
    }
}

/// The non-empty segments of any string are themselves non-empty and free
/// of slashes.
pub proof fn lemma_segments_shape(s: Seq<char>)
    ensures
        forall|j: int|
            0 <= j < spec_segments(s).len() ==> (#[trigger] spec_segments(s)[j]).len() > 0,
        forall|j: int|
            0 <= j < spec_segments(s).len() ==> no_char(#[trigger] spec_segments(s)[j], '/'),
{
    let parts = spec_split(s, '/');
    let segs = spec_segments(s);
    lemma_split_rec_elems(s, '/', Seq::empty(), Seq::empty());
    lemma_filter_subset(parts, nonempty_pred());
    assert forall|j: int| 0 <= j < segs.len() implies (#[trigger] segs[j]).len() > 0 && no_char(
        segs[j],
        '/',
    ) by {
        parts.lemma_filter_pred(nonempty_pred(), j);
        assert(parts.contains(segs[j]));
        let i = choose|i: int| 0 <= i < parts.len() && parts[i] == segs[j];
        assert(no_char(parts[i], '/'));
    }
}

/// The two in-band `cd` error strings carry the `Error` prefix, and the
/// root path does not.
pub(crate) proof fn lemma_cd_result_literals()
    ensures
        spec_starts_with("Error: not enough arguments"@, "Error"@),
        spec_starts_with("Error: path not found"@, "Error"@),
        !spec_starts_with("/"@, "Error"@),
        "/"@.len() == 1 && "/"@[0] == '/',
{
    reveal_strlit("Error");
    reveal_strlit("Error: not enough arguments");
    reveal_strlit("Error: path not found");
    reveal_strlit("/");
    assert("Error: not enough arguments"@.subrange(0, 5) =~= "Error"@);
    assert("Error: path not found"@.subrange(0, 5) =~= "Error"@);
}

/// Every in-band error string of the command set begins with `Error:`.
pub proof fn lemma_error_results_begin_with_error_prefix()
    ensures
        spec_starts_with("Error: not enough arguments"@, "Error:"@),
        spec_starts_with("Error: path not found"@, "Error:"@),
        spec_starts_with("Error: file not found"@, "Error:"@),
{
    reveal_strlit("Error:");
    reveal_strlit("Error: not enough arguments");
    reveal_strlit("Error: path not found");
    reveal_strlit("Error: file not found");
    assert("Error: not enough arguments"@.subrange(0, 6) =~= "Error:"@);
    assert("Error: path not found"@.subrange(0, 6) =~= "Error:"@);
    assert("Error: file not found"@.subrange(0, 6) =~= "Error:"@);
}

/// A successful `cd` from a valid current path, with a target that is made
/// of non-empty segments, yields a valid path again: the current path keeps
/// its leading `/` and never acquires an empty segment.
pub proof fn lemma_cd_preserves_valid_path(
    vfs: Seq<Seq<char>>,
    current: Seq<char>,
    args: Seq<Seq<char>>,
)
    requires
        valid_path(current),
        args.len() > 0,
        args[0] != ".."@ && args[0] != "/"@ ==> clean_token(args[0]),
    ensures
        !spec_starts_with(spec_cd(vfs, current, args), "Error"@) ==> valid_path(
            spec_cd(vfs, current, args),
        ),
{
    lemma_cd_result_literals();
    let r = spec_cd(vfs, current, args);
    if args[0] == ".."@ {
        let segs = spec_segments(current);
        if segs.len() > 1 {
            lemma_segments_shape(current);
            let parts = segs.drop_last();
            assert(forall|j: int| 0 <= j < parts.len() ==> #[trigger] parts[j] == segs[j]);
            lemma_join_slash_shape(parts, "/"@);
            let j = spec_join(parts, "/"@);
            let rr = "/"@ + j;
            assert(rr[0] == '/');
            assert forall|i: int| 0 <= i < rr.len() - 1 implies !(#[trigger] rr[i] == '/' && rr[i
                + 1] == '/') by {
                if i == 0 {
                    assert(rr[1] == j[0]);
                } else {
                    assert(rr[i] == j[i - 1] && rr[i + 1] == j[i]);
                }
            }
            assert(valid_path(rr));
        }
    } else if args[0] == "/"@ {
        assert(valid_path("/"@));
    } else {
        let t = args[0];
        if exists|k: int|
            0 <= k < vfs.len() && spec_starts_with(
                #[trigger] vfs[k],
                spec_trim_end_slashes(current) + "/"@ + t,
            ) {
            lemma_trim_end_props(current);
            let trm = spec_trim_end_slashes(current);
            let nt = trm.len() as int;
            let tl = t.len() as int;
            let rr = trm + "/"@ + t + "/"@;
            assert(r == rr);
            assert(rr.len() == nt + tl + 2);
            if nt > 0 {
                assert(trm[0] == current[0]);
                assert(rr[0] == '/');
            } else {
                assert(rr[0] == '/');
            }
            assert forall|i: int| 0 <= i < rr.len() - 1 implies !(#[trigger] rr[i] == '/' && rr[i
                + 1] == '/') by {
                if i + 1 < nt {
                    assert(trm[i] == current[i] && trm[i + 1] == current[i + 1]);
                    assert(rr[i] == current[i] && rr[i + 1] == current[i + 1]);
                } else if i + 1 == nt {
                    assert(rr[i] == trm[nt - 1] && rr[i + 1] == '/');
                    assert(trm[nt - 1] == trm.last());
                } else if i == nt {
                    assert(rr[i] == '/' && rr[i + 1] == t[0]);
                } else if i < nt + 1 + tl - 1 {
                    assert(rr[i] == t[i - nt - 1] && rr[i + 1] == t[i - nt]);
                } else {
                    assert(rr[i] == t[tl - 1] && rr[i + 1] == '/');
                    assert(t[tl - 1] == t.last());
                }
            }
            assert(valid_path(rr));
        }
    }
}

/// A `cd` outcome carries the in-band `Error` prefix exactly when the
/// argument vector is empty, or the target is an ordinary token whose
/// candidate directory no VFS entry starts with.
pub proof fn lemma_cd_error_iff(vfs: Seq<Seq<char>>, current: Seq<char>, args: Seq<Seq<char>>)
    requires
        valid_path(current),
    ensures
        spec_starts_with(spec_cd(vfs, current, args), "Error"@) <==> (args.len() == 0 || (args[0]
            != ".."@ && args[0] != "/"@ && !(exists|k: int|
            0 <= k < vfs.len() && spec_starts_with(
                #[trigger] vfs[k],
                spec_trim_end_slashes(current) + "/"@ + args[0],
            )))),
{
    lemma_cd_result_literals();
    reveal_strlit("Error");
    let r = spec_cd(vfs, current, args);
    if args.len() > 0 && args[0] == ".."@ {
        let segs = spec_segments(current);
        if segs.len() > 1 {
            assert(r == "/"@ + spec_join(segs.drop_last(), "/"@));
            assert(r[0] == '/');
            if spec_starts_with(r, "Error"@) {
                assert(r.subrange(0, 5)[0] == r[0]);
                assert(false);
            }
        }
    } else if args.len() > 0 && args[0] != ".."@ && args[0] != "/"@ {
        let cand = spec_trim_end_slashes(current) + "/"@ + args[0];
        if exists|k: int|
            0 <= k < vfs.len() && spec_starts_with(#[trigger] vfs[k], cand) {
            lemma_trim_end_props(current);
            let trm = spec_trim_end_slashes(current);
            assert(r == cand + "/"@);
            if trm.len() > 0 {
                assert(trm[0] == current[0]);
                assert(r[0] == '/');
            } else {
                assert(r[0] == '/');
            }
            if spec_starts_with(r, "Error"@) {
                assert(r.subrange(0, 5)[0] == r[0]);
                assert(false);
            }
        }
    }
}

/// A successful `cd` ends with `/` whenever its target is not `..`; a `..`
/// from at most one segment deep yields the root, which also ends with `/`.
pub proof fn lemma_cd_success_ends_with_slash(
    vfs: Seq<Seq<char>>,
    current: Seq<char>,
    args: Seq<Seq<char>>,
)
    requires
        args.len() > 0 && args[0] == ".."@ ==> spec_segments(current).len() <= 1,
    ensures
        !spec_starts_with(spec_cd(vfs, current, args), "Error"@) ==> (spec_cd(
            vfs,
            current,
            args,
        ).len() > 0 && spec_cd(vfs, current, args).last() == '/'),
{
    lemma_cd_result_literals();
    let r = spec_cd(vfs, current, args);
    if args.len() > 0 && args[0] != ".."@ && args[0] != "/"@ {
        let cand = spec_trim_end_slashes(current) + "/"@ + args[0];
        if exists|k: int|
            0 <= k < vfs.len() && spec_starts_with(#[trigger] vfs[k], cand) {
            assert(r == cand + "/"@);
            assert(r.last() == '/');
        }
    }
}

/// `cd /` yields the root from any state.
pub proof fn lemma_cd_root(vfs: Seq<Seq<char>>, current: Seq<char>, args: Seq<Seq<char>>)
    requires
        args.len() > 0,
        args[0] == "/"@,
    ensures
        spec_cd(vfs, current, args) == "/"@,
{
    reveal_strlit("/");
    reveal_strlit("..");
    assert("/"@.len() == 1);
    assert(".."@.len() == 2);
}

/// From the root, a successful `cd` into a single-segment directory is
/// undone by `cd ..`, returning the current path to the root.
pub proof fn lemma_cd_then_up_returns_to_root(vfs: Seq<Seq<char>>, t: Seq<char>)
    requires
        t.len() > 0,
        no_char(t, '/'),
    ensures
        ({
            let r1 = spec_cd(vfs, "/"@, seq![t]);
            !spec_starts_with(r1, "Error"@) ==> spec_cd(vfs, r1, seq![".."@]) == "/"@
        }),
{
    lemma_cd_result_literals();
    reveal_strlit("..");
    lemma_root_segments_empty();
    let r1 = spec_cd(vfs, "/"@, seq![t]);
    if t == ".."@ {
        assert(r1 == "/"@);
        assert(spec_cd(vfs, r1, seq![".."@]) == "/"@);
    } else {
        assert(t != "/"@) by {
            if t == "/"@ {
                assert(t[0] == '/');
            }
        }
        lemma_trim_end_props("/"@);
        let trm = spec_trim_end_slashes("/"@);
        assert(trm.len() == 0) by {
            if trm.len() > 0 {
                assert(trm.last() != '/');
                assert(trm == "/"@.take(trm.len() as int));
                assert(trm.last() == '/');
            }
        }
        assert(trm =~= Seq::<char>::empty());
        let cand = trm + "/"@ + t;
        if exists|k: int|
            0 <= k < vfs.len() && spec_starts_with(#[trigger] vfs[k], cand) {
            assert(r1 == cand + "/"@);
            assert(r1 =~= "/"@ + (t + "/"@));
            // split r1 on '/': leading slash, then the slash-free t, then
            // the final slash.
            assert(r1[0] == '/');
            assert(split_rec(r1, '/', Seq::empty(), Seq::empty()) == split_rec(
                r1.skip(1),
                '/',
                Seq::empty(),
                seq![Seq::<char>::empty()],
            ));
            assert(r1.skip(1) =~= t + "/"@);
            lemma_split_rec_no_sep(t, "/"@, '/', Seq::empty(), seq![Seq::<char>::empty()]);
            assert(split_rec(t + "/"@, '/', Seq::empty(), seq![Seq::<char>::empty()])
                == split_rec("/"@, '/', Seq::<char>::empty() + t, seq![Seq::<char>::empty()]));
            assert("/"@[0] == '/');
            assert("/"@.skip(1) =~= Seq::<char>::empty());
            assert(split_rec("/"@, '/', Seq::<char>::empty() + t, seq![Seq::<char>::empty()])
                == split_rec(
                Seq::<char>::empty(),
                '/',
                Seq::empty(),
                seq![Seq::<char>::empty()].push(Seq::<char>::empty() + t),
            ));
            assert(Seq::<char>::empty() + t =~= t);
            let parts = spec_split(r1, '/');
            assert(parts =~= seq![Seq::<char>::empty(), t, Seq::<char>::empty()]);
            let segs = spec_segments(r1);
            assert(segs =~= seq![t]) by {
                reveal_with_fuel(Seq::<Seq<char>>::filter, 4);
                assert(parts.drop_last() =~= seq![Seq::<char>::empty(), t]);
                assert(parts.drop_last().drop_last() =~= seq![Seq::<char>::empty()]);
                assert(parts.drop_last().drop_last().drop_last() =~= Seq::<Seq<char>>::empty());
            }
            assert(segs.len() <= 1);
            assert(spec_cd(vfs, r1, seq![".."@]) == "/"@);
        }
    }
}

/// At the root there are no non-empty path segments.
pub(crate) proof fn lemma_root_segments_empty()
    ensures
        spec_segments("/"@).len() == 0,
{
    reveal_strlit("/");
    assert("/"@[0] == '/');
    assert(split_rec("/"@, '/', Seq::empty(), Seq::empty()) == split_rec(
        "/"@.skip(1),
        '/',
        Seq::empty(),
        seq![Seq::<char>::empty()],
    ));
    assert("/"@.skip(1) =~= Seq::<char>::empty());
    let parts = spec_split("/"@, '/');
    assert(parts =~= seq![Seq::<char>::empty(), Seq::<char>::empty()]);
    assert(spec_segments("/"@) =~= Seq::<Seq<char>>::empty()) by {
        reveal_with_fuel(Seq::<Seq<char>>::filter, 3);
        assert(parts.drop_last() =~= seq![Seq::<char>::empty()]);
        assert(parts.drop_last().drop_last() =~= Seq::<Seq<char>>::empty());
    }
}

} // verus!
