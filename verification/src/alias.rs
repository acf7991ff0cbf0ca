//! Command-line aliases: short spellings of common subcommands, expanded
//! before argument parsing. Only the first alias found (trying the table
//! top to bottom) is expanded, in place.

use vstd::prelude::*;

verus! {

/// The first index of `a` in `args`, or a negative value when absent.
pub open spec fn spec_pos_of(args: Seq<Seq<char>>, a: Seq<char>) -> int
    decreases args.len(),
{
    if args.len() == 0 {
        -1
    } else if args[0] == a {
        0
    } else {
        let r = spec_pos_of(args.skip(1), a);
        if r < 0 {
            -1
        } else {
            1 + r
        }
    }
}

proof fn lemma_pos_of_skip(args: Seq<Seq<char>>, a: Seq<char>, n: int)
    requires
        0 <= n <= args.len(),
        forall|k: int| 0 <= k < n ==> args[k] != a,
    ensures
        spec_pos_of(args, a) == (if spec_pos_of(args.skip(n), a) < 0 {
            -1
        } else {
            n + spec_pos_of(args.skip(n), a)
        }),
    decreases n,
{
    if n == 0 {
        assert(args.skip(0) =~= args);
    } else {
        assert(args[0] != a);
        assert(forall|k: int| 0 <= k < n - 1 ==> #[trigger] args.skip(1)[k] == args[k + 1]);
        lemma_pos_of_skip(args.skip(1), a, n - 1);
        assert(args.skip(1).skip(n - 1) =~= args.skip(n));
    }
}

/// The first index of `a` in `args`, executably.
fn position_of(args: &Vec<String>, a: &str) -> (r: Option<usize>)
    ensures
        match r {
            Some(p) => p < args@.len() && spec_pos_of(args.deep_view(), a@) == p,
            None => spec_pos_of(args.deep_view(), a@) < 0,
        },
{
    let ghost av = args.deep_view();
    let owned = a.to_owned();
    let mut i: usize = 0;
    while i < args.len()
        invariant
            i <= args.len(),
            av == args.deep_view(),
            owned@ == a@,
            forall|k: int| 0 <= k < i ==> av[k] != a@,
        decreases args.len() - i,
    {
        if args[i] == owned {
            proof {
                lemma_pos_of_skip(av, a@, i as int);
                assert(av.skip(i as int)[0] == av[i as int]);
                assert(av[i as int] == a@);
            }
            return Some(i);
        }
        i += 1;
    }
    proof {
        lemma_pos_of_skip(av, a@, av.len() as int);
        assert(av.skip(av.len() as int).len() == 0);
    }
    None
}

/// `args` with the word at `p` replaced by the words of `repl`.
pub open spec fn spec_splice(args: Seq<Seq<char>>, p: int, repl: Seq<Seq<char>>) -> Seq<Seq<char>> {
    args.take(p) + repl + args.skip(p + 1)
}

/// Splices `repl` over position `p`, executably.
fn splice(args: &Vec<String>, p: usize, repl: Vec<String>) -> (r: Vec<String>)
    requires
        p < args@.len(),
    ensures
        r.deep_view() == spec_splice(args.deep_view(), p as int, repl.deep_view()),
{
    let ghost av = args.deep_view();
    let ghost rv = repl.deep_view();
    let mut out: Vec<String> = Vec::new();
    let mut i: usize = 0;
    while i < p
        invariant
            i <= p,
            p < args@.len(),
            av == args.deep_view(),
            out@.len() == i,
            forall|k: int| 0 <= k < i ==> out@[k]@ == av[k],
        decreases p - i,
    {
        out.push(args[i].clone());
        i += 1;
    }
    let mut j: usize = 0;
    while j < repl.len()
        invariant
            j <= repl.len(),
            p < args@.len(),
            av == args.deep_view(),
            rv == repl.deep_view(),
            out@.len() == p + j,
            forall|k: int| 0 <= k < p ==> out@[k]@ == av[k],
            forall|k: int| 0 <= k < j ==> out@[p + k]@ == rv[k],
        decreases repl.len() - j,
    {
        out.push(repl[j].clone());
        j += 1;
    }
    let n = args.len();
    proof {
        assert(args@.len() == n);
    }
    let mut m: usize = p + 1;
    while m < args.len()
        invariant
            p + 1 <= m <= args@.len(),
            p < args@.len(),
            av == args.deep_view(),
            rv == repl.deep_view(),
            out@.len() == p + repl@.len() + (m - p - 1),
            repl@.len() == rv.len(),
            forall|k: int| 0 <= k < p ==> out@[k]@ == av[k],
            forall|k: int| 0 <= k < rv.len() ==> out@[p + k]@ == rv[k],
            forall|k: int| p + 1 <= k < m ==> out@[rv.len() + k - 1]@ == av[k],
        decreases args.len() - m,
    {
        out.push(args[m].clone());
        m += 1;
    }
    proof {
        let want = spec_splice(av, p as int, rv);
        assert forall|k: int| 0 <= k < want.len() implies out.deep_view()[k] == want[k] by {
            assert(out.deep_view()[k] == out@[k]@);
            if k < p {
                assert(want[k] == av.take(p as int)[k]);
            } else if k < p + rv.len() {
                assert(want[k] == rv[k - p]);
                assert(out@[p + (k - p)]@ == rv[k - p]);
            } else {
                assert(want[k] == av.skip(p + 1)[k - p - rv.len()]);
                assert(av.skip(p + 1)[k - p - rv.len()] == av[k - rv.len() + 1]);
                assert(out@[rv.len() + (k - rv.len() + 1) - 1]@ == av[k - rv.len() + 1]);
            }
        }
        assert(out.deep_view() =~= want);
    }
    out
}

/// Two words.
fn words2(a: &str, b: &str) -> (r: Vec<String>)
    ensures
        r.deep_view() =~= seq![a@, b@],
{
    let mut v: Vec<String> = Vec::new();
    v.push(a.to_owned());
    v.push(b.to_owned());
    v
}

/// One word.
fn words1(a: &str) -> (r: Vec<String>)
    ensures
        r.deep_view() =~= seq![a@],
{
    let mut v: Vec<String> = Vec::new();
    v.push(a.to_owned());
    v
}

/// Where the first alias of the table stands in `args`, and what it
/// expands to; the table is tried top to bottom.
pub open spec fn spec_replace_aliases(args: Seq<Seq<char>>) -> Seq<Seq<char>> {
    if spec_pos_of(args, "li"@) >= 0 {
        spec_splice(args, spec_pos_of(args, "li"@), seq!["list"@, "installed"@])
    } else if spec_pos_of(args, "la"@) >= 0 {
        spec_splice(args, spec_pos_of(args, "la"@), seq!["list"@, "available"@])
    } else if spec_pos_of(args, "ls"@) >= 0 {
        spec_splice(args, spec_pos_of(args, "ls"@), seq!["list"@, "sync"@])
    } else if spec_pos_of(args, "lu"@) >= 0 {
        spec_splice(args, spec_pos_of(args, "lu"@), seq!["list"@, "sync"@])
    } else if spec_pos_of(args, "ar"@) >= 0 {
        spec_splice(args, spec_pos_of(args, "ar"@), seq!["repo"@, "add"@])
    } else if spec_pos_of(args, "lr"@) >= 0 {
        spec_splice(args, spec_pos_of(args, "lr"@), seq!["repo"@, "list"@])
    } else if spec_pos_of(args, "rr"@) >= 0 {
        spec_splice(args, spec_pos_of(args, "rr"@), seq!["repo"@, "remove"@])
    } else if spec_pos_of(args, "ur"@) >= 0 {
        spec_splice(args, spec_pos_of(args, "ur"@), seq!["repo"@, "update"@])
    } else if spec_pos_of(args, "er"@) >= 0 {
        spec_splice(args, spec_pos_of(args, "er"@), seq!["repo"@, "enable"@])
    } else if spec_pos_of(args, "dr"@) >= 0 {
        spec_splice(args, spec_pos_of(args, "dr"@), seq!["repo"@, "disable"@])
    } else if spec_pos_of(args, "ix"@) >= 0 {
        spec_splice(args, spec_pos_of(args, "ix"@), seq!["index"@])
    } else if spec_pos_of(args, "it"@) >= 0 {
        spec_splice(args, spec_pos_of(args, "it"@), seq!["install"@])
    } else if spec_pos_of(args, "rm"@) >= 0 {
        spec_splice(args, spec_pos_of(args, "rm"@), seq!["remove"@])
    } else if spec_pos_of(args, "up"@) >= 0 {
        spec_splice(args, spec_pos_of(args, "up"@), seq!["sync"@])
    } else {
        args
    }
}

/// Expands the first command alias found, trying the table top to
/// bottom; arguments without an alias pass through unchanged.
pub fn replace_aliases(args: Vec<String>) -> (r: Vec<String>)
    ensures
        r.deep_view() == spec_replace_aliases(args.deep_view()),
{
    if let Some(p) = position_of(&args, "li") {
        return splice(&args, p, words2("list", "installed"));
    }
    if let Some(p) = position_of(&args, "la") {
        return splice(&args, p, words2("list", "available"));
    }
    if let Some(p) = position_of(&args, "ls") {
        return splice(&args, p, words2("list", "sync"));
    }
    if let Some(p) = position_of(&args, "lu") {
        return splice(&args, p, words2("list", "sync"));
    }
    if let Some(p) = position_of(&args, "ar") {
        return splice(&args, p, words2("repo", "add"));
    }
    if let Some(p) = position_of(&args, "lr") {
        return splice(&args, p, words2("repo", "list"));
    }
    if let Some(p) = position_of(&args, "rr") {
        return splice(&args, p, words2("repo", "remove"));
    }
    if let Some(p) = position_of(&args, "ur") {
        return splice(&args, p, words2("repo", "update"));
    }
    if let Some(p) = position_of(&args, "er") {
        return splice(&args, p, words2("repo", "enable"));
    }
    if let Some(p) = position_of(&args, "dr") {
        return splice(&args, p, words2("repo", "disable"));
    }
    if let Some(p) = position_of(&args, "ix") {
        return splice(&args, p, words1("index"));
    }
    if let Some(p) = position_of(&args, "it") {
        return splice(&args, p, words1("install"));
    }
    if let Some(p) = position_of(&args, "rm") {
        return splice(&args, p, words1("remove"));
    }
    if let Some(p) = position_of(&args, "up") {
        return splice(&args, p, words1("sync"));
    }
    args
}

} // verus!
