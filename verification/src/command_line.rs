//! The UTF-16 strings with which the shim starts the real interpreter on Windows.
use vstd::prelude::*;

verus! {

/// The UTF-16 code unit of `"`.
pub open spec fn quote_unit() -> u16 {
    34
}

/// `s` between double quotes.
pub open spec fn quoted(s: Seq<u16>) -> Seq<u16> {
    seq![quote_unit()] + s + seq![quote_unit()]
}

/// Each argument, after a space and between double quotes.
pub open spec fn quoted_args(args: Seq<Seq<u16>>) -> Seq<u16>
    decreases args.len(),
{
    if args.len() == 0 {
        seq![]
    } else {
        quoted_args(args.drop_last()) + seq![32u16] + quoted(args.last())
    }
}

/// The command line: the shim's own path in quotes (so that the interpreter sees it as
/// `argv[0]`), each argument after a space in quotes, and a terminating NUL.
pub open spec fn spec_command_line(shim_path: Seq<u16>, args: Seq<Seq<u16>>) -> Seq<u16> {
    quoted(shim_path) + quoted_args(args) + seq![0u16]
}

/// The views of a list of UTF-16 strings.
pub open spec fn wide_views(args: Seq<Vec<u16>>) -> Seq<Seq<u16>> {
    args.map_values(|a: Vec<u16>| a@)
}

fn push_all(out: &mut Vec<u16>, s: &Vec<u16>)
    ensures
        final(out)@ == old(out)@ + s@,
{
    let mut i: usize = 0;
    let ghost start = out@;
    while i < s.len()
        invariant
            i <= s.len(),
            out@ == start + s@.take(i as int),
        decreases s.len() - i,
    {
        out.push(s[i]);
        assert(s@.take(i + 1) =~= s@.take(i as int).push(s@[i as int]));
        i = i + 1;
    }
    assert(s@.take(s.len() as int) =~= s@);
}

/// The NUL-terminated UTF-16 command line with which the shim starts the interpreter:
/// `"<shim_path>"`, then ` "<arg>"` for each argument, then NUL.
pub fn windows_command_line(shim_path: &Vec<u16>, args: &Vec<Vec<u16>>) -> (r: Vec<u16>)
    ensures
        r@ == spec_command_line(shim_path@, wide_views(args@)),
{
    let mut out: Vec<u16> = Vec::new();
    out.push(34);
    push_all(&mut out, shim_path);
    out.push(34);
    assert(out@ =~= quoted(shim_path@) + quoted_args(wide_views(args@).take(0)));
    let mut i: usize = 0;
    while i < args.len()
        invariant
            i <= args.len(),
            out@ == quoted(shim_path@) + quoted_args(wide_views(args@).take(i as int)),
        decreases args.len() - i,
    {
        let ghost before = out@;
        out.push(32);
        out.push(34);
        push_all(&mut out, &args[i]);
        out.push(34);
        assert(wide_views(args@).take(i + 1).drop_last() =~= wide_views(args@).take(i as int));
        assert(wide_views(args@).take(i + 1).last() == args@[i as int]@);
        assert(out@ =~= before + seq![32u16] + quoted(args@[i as int]@));
        i = i + 1;
    }
    assert(wide_views(args@).take(args.len() as int) =~= wide_views(args@));
    out.push(0);
    out
}

/// A UTF-16 string with a terminating NUL appended, as Windows takes an application name.
pub fn wide_nul_terminated(s: &Vec<u16>) -> (r: Vec<u16>)
    ensures
        r@ == s@.push(0u16),
{
    let mut out: Vec<u16> = Vec::new();
    push_all(&mut out, s);
    out.push(0);
    assert(out@ =~= s@.push(0u16));
    out
}

/// No NUL in any of the given strings.
pub open spec fn nul_free(s: Seq<u16>) -> bool {
    forall|j: int| 0 <= j < s.len() ==> s[j] != 0u16
}

proof fn lemma_quoted_args_nul_free(args: Seq<Seq<u16>>)
    requires
        forall|k: int| 0 <= k < args.len() ==> nul_free(#[trigger] args[k]),
    ensures
        nul_free(quoted_args(args)),
    decreases args.len(),
{
    if args.len() > 0 {
        lemma_quoted_args_nul_free(args.drop_last());
        let a = args.last();
        assert(nul_free(args[args.len() - 1]));
        let q = quoted_args(args);
        let p = quoted_args(args.drop_last());
        assert forall|j: int| 0 <= j < q.len() implies q[j] != 0u16 by {
            if j < p.len() {
                assert(q[j] == p[j]);
            } else if j == p.len() {
            } else if j == p.len() + 1 {
            } else if j < p.len() + 2 + a.len() {
                assert(q[j] == a[j - p.len() - 2]);
            }
        }
    }
}

/// Law: where neither the shim's path nor any argument holds a NUL, the command line
/// ends in its only NUL, so Windows reads it whole.
pub proof fn law_command_line_single_nul(shim_path: Seq<u16>, args: Seq<Seq<u16>>)
    requires
        nul_free(shim_path),
        forall|k: int| 0 <= k < args.len() ==> nul_free(#[trigger] args[k]),
    ensures
        ({
            let c = spec_command_line(shim_path, args);
            &&& c.len() > 0
            &&& c.last() == 0u16
            &&& forall|j: int| 0 <= j < c.len() - 1 ==> c[j] != 0u16
        }),
{
    lemma_quoted_args_nul_free(args);
    let c = spec_command_line(shim_path, args);
    let q = quoted(shim_path);
    let a = quoted_args(args);
    assert forall|j: int| 0 <= j < c.len() - 1 implies c[j] != 0u16 by {
        if j < q.len() {
            assert(c[j] == q[j]);
            if 0 < j < q.len() - 1 {
                assert(q[j] == shim_path[j - 1]);
            }
        } else {
            assert(c[j] == a[j - q.len()]);
        }
    }
}

/// The state of the Windows argument parser partway through a command line.
pub struct ArgvState {
    /// The arguments read so far.
    pub done: Seq<Seq<u16>>,
    /// The argument being read.
    pub cur: Seq<u16>,
    /// Whether an argument is being read.
    pub in_arg: bool,
    /// Whether the parser is between double quotes.
    pub in_quotes: bool,
    /// The backslashes read and not yet placed.
    pub backslashes: nat,
}

/// `n` backslashes.
pub open spec fn backslashes(n: nat) -> Seq<u16> {
    Seq::new(n, |i: int| 92u16)
}

/// One step of the parser, by the documented rules for Windows command lines: a
/// backslash is held back; a double quote after an even number of backslashes places
/// half of them and toggles quoting, after an odd number places half of them and a
/// literal quote; a space or tab outside quotes ends the argument; any other unit is
/// placed after the held backslashes.
pub open spec fn argv_step(st: ArgvState, c: u16) -> ArgvState {
    if c == 92u16 {
        ArgvState { backslashes: st.backslashes + 1, in_arg: true, ..st }
    } else if c == 34u16 {
        if st.backslashes % 2 == 0 {
            ArgvState {
                cur: st.cur + backslashes(st.backslashes / 2),
                in_quotes: !st.in_quotes,
                in_arg: true,
                backslashes: 0,
                ..st
            }
        } else {
            ArgvState {
                cur: st.cur + backslashes(st.backslashes / 2) + seq![34u16],
                in_arg: true,
                backslashes: 0,
                ..st
            }
        }
    } else if (c == 32u16 || c == 9u16) && !st.in_quotes {
        if st.in_arg {
            ArgvState {
                done: st.done.push(st.cur + backslashes(st.backslashes)),
                cur: seq![],
                in_arg: false,
                backslashes: 0,
                ..st
            }
        } else {
            ArgvState { backslashes: 0, ..st }
        }
    } else {
        ArgvState { cur: st.cur + backslashes(st.backslashes) + seq![c], backslashes: 0, in_arg: true, ..st }
    }
}

/// The parser's state after reading `s` from `st`.
pub open spec fn argv_run(st: ArgvState, s: Seq<u16>) -> ArgvState
    decreases s.len(),
{
    if s.len() == 0 {
        st
    } else {
        argv_run(argv_step(st, s[0]), s.drop_first())
    }
}

/// The arguments once the command line has ended.
pub open spec fn argv_finish(st: ArgvState) -> Seq<Seq<u16>> {
    if st.in_arg {
        st.done.push(st.cur + backslashes(st.backslashes))
    } else {
        st.done
    }
}

/// The parser's state at the start of a command line.
pub open spec fn argv_init() -> ArgvState {
    ArgvState { done: seq![], cur: seq![], in_arg: false, in_quotes: false, backslashes: 0 }
}

/// The position of the first double quote in `s`, if any.
pub open spec fn first_quote(s: Seq<u16>) -> Option<int>
    decreases s.len(),
{
    if s.len() == 0 {
        None
    } else if s[0] == 34u16 {
        Some(0)
    } else {
        match first_quote(s.drop_first()) {
            Some(i) => Some(i + 1),
            None => None,
        }
    }
}

/// The position of the first space or tab in `s`, if any.
pub open spec fn first_blank(s: Seq<u16>) -> Option<int>
    decreases s.len(),
{
    if s.len() == 0 {
        None
    } else if s[0] == 32u16 || s[0] == 9u16 {
        Some(0)
    } else {
        match first_blank(s.drop_first()) {
            Some(i) => Some(i + 1),
            None => None,
        }
    }
}

/// The arguments that the Windows argument rules read from a command line (without its
/// terminating NUL): the program name first, which runs from an opening double quote to
/// the next double quote (or to the end) and is taken as it stands, or, where the line
/// does not start with a quote, up to the first space or tab; then the arguments after
/// it, read by `argv_step`.
pub open spec fn parse_arguments(body: Seq<u16>) -> Seq<Seq<u16>> {
    if body.len() > 0 && body[0] == 34u16 {
        match first_quote(body.drop_first()) {
            Some(i) => seq![body.subrange(1, i + 1)] + argv_finish(argv_run(argv_init(), body.skip(i + 2))),
            None => seq![body.drop_first()],
        }
    } else {
        match first_blank(body) {
            Some(i) => seq![body.take(i)] + argv_finish(argv_run(argv_init(), body.skip(i + 1))),
            None => seq![body],
        }
    }
}

/// The arguments that the Windows argument rules read from a NUL-terminated command
/// line, as `parse_arguments` says of the text before the NUL.
pub open spec fn parse_command_line(line: Seq<u16>) -> Seq<Seq<u16>> {
    if line.len() > 0 && line.last() == 0u16 {
        parse_arguments(line.drop_last())
    } else {
        parse_arguments(line)
    }
}

proof fn lemma_first_quote(a: Seq<u16>, b: Seq<u16>)
    requires
        forall|j: int| 0 <= j < a.len() ==> a[j] != 34u16,
        b.len() > 0,
        b[0] == 34u16,
    ensures
        first_quote(a + b) == Some(a.len() as int),
    decreases a.len(),
{
    if a.len() == 0 {
        assert(a + b =~= b);
    } else {
        assert((a + b).drop_first() =~= a.drop_first() + b);
        assert((a + b)[0] == a[0]);
        lemma_first_quote(a.drop_first(), b);
    }
}

proof fn lemma_argv_run_one(st: ArgvState, c: u16)
    ensures
        argv_run(st, seq![c]) == argv_step(st, c),
{
    let s1 = seq![c];
    assert(s1.drop_first() =~= Seq::<u16>::empty());
    assert(s1[0] == c);
    assert(argv_run(argv_step(st, c), s1.drop_first()) == argv_step(st, c));
}

proof fn lemma_argv_run_append(st: ArgvState, a: Seq<u16>, b: Seq<u16>)
    ensures
        argv_run(st, a + b) == argv_run(argv_run(st, a), b),
    decreases a.len(),
{
    if a.len() == 0 {
        assert(a + b =~= b);
    } else {
        assert((a + b).drop_first() =~= a.drop_first() + b);
        assert((a + b)[0] == a[0]);
        lemma_argv_run_append(argv_step(st, a[0]), a.drop_first(), b);
    }
}

/// The number of backslashes at the end of `a`.
pub open spec fn trailing_backslashes(a: Seq<u16>) -> nat
    decreases a.len(),
{
    if a.len() > 0 && a.last() == 92u16 {
        trailing_backslashes(a.drop_last()) + 1
    } else {
        0
    }
}

proof fn lemma_trailing_backslashes(a: Seq<u16>)
    ensures
        trailing_backslashes(a) <= a.len(),
        a.skip(a.len() - trailing_backslashes(a)) == backslashes(trailing_backslashes(a)),
    decreases a.len(),
{
    if a.len() > 0 && a.last() == 92u16 {
        lemma_trailing_backslashes(a.drop_last());
        let t = trailing_backslashes(a.drop_last());
        assert(a.skip(a.len() - (t + 1)) =~= a.drop_last().skip(a.drop_last().len() - t).push(92u16));
        assert(backslashes(t + 1) =~= backslashes(t).push(92u16));
    } else {
        assert(a.skip(a.len() as int) =~= backslashes(0));
    }
}

/// Reading a quote-free text inside quotes places all of it but its trailing
/// backslashes, which are held back.
proof fn lemma_inside_quotes(st: ArgvState, a: Seq<u16>)
    requires
        st.in_quotes,
        st.in_arg,
        st.backslashes == 0,
        forall|j: int| 0 <= j < a.len() ==> a[j] != 34u16,
    ensures
        argv_run(st, a) == (ArgvState {
            cur: st.cur + a.take(a.len() - trailing_backslashes(a)),
            backslashes: trailing_backslashes(a),
            ..st
        }),
    decreases a.len(),
{
    lemma_trailing_backslashes(a);
    if a.len() == 0 {
        assert(st.cur + a.take(0) =~= st.cur);
    } else {
        let p = a.drop_last();
        let c = a.last();
        lemma_inside_quotes(st, p);
        lemma_trailing_backslashes(p);
        assert(a =~= p + seq![c]);
        lemma_argv_run_append(st, p, seq![c]);
        let mid = argv_run(st, p);
        lemma_argv_run_one(mid, c);
        let tp = trailing_backslashes(p);
        if c == 92u16 {
            assert(a.take(a.len() - trailing_backslashes(a)) =~= p.take(p.len() - tp));
        } else {
            assert(trailing_backslashes(a) == 0);
            assert(p.take(p.len() - tp) + backslashes(tp) =~= p) by {
                assert(p.take(p.len() - tp) + p.skip(p.len() - tp) =~= p);
            }
            assert(st.cur + p.take(p.len() - tp) + backslashes(tp) + seq![c] =~= st.cur + a.take(a.len() as int));
        }
    }
}

/// A quoted text without quotes that does not end in a backslash is read whole into
/// the argument being read.
proof fn lemma_quoted(st: ArgvState, a: Seq<u16>)
    requires
        !st.in_quotes,
        st.backslashes == 0,
        forall|j: int| 0 <= j < a.len() ==> a[j] != 34u16,
        a.len() == 0 || a.last() != 92u16,
    ensures
        argv_run(st, quoted(a)) == (ArgvState { cur: st.cur + a, in_arg: true, ..st }),
{
    let open = argv_step(st, 34u16);
    assert(open == (ArgvState { in_quotes: true, in_arg: true, ..st })) by {
        assert(st.cur + backslashes(0) =~= st.cur);
    }
    assert(quoted(a) =~= seq![34u16] + (a + seq![34u16]));
    lemma_argv_run_append(st, seq![34u16], a + seq![34u16]);
    lemma_argv_run_one(st, 34u16);
    lemma_argv_run_append(open, a, seq![34u16]);
    lemma_inside_quotes(open, a);
    assert(trailing_backslashes(a) == 0);
    assert(a.take(a.len() as int) =~= a);
    let inner = argv_run(open, a);
    lemma_argv_run_one(inner, 34u16);
    assert(st.cur + a + backslashes(0) =~= st.cur + a);
}

/// A text that the parser reads back whole: no double quote, no trailing backslash.
pub open spec fn plain_argument(a: Seq<u16>) -> bool {
    &&& forall|j: int| 0 <= j < a.len() ==> a[j] != 34u16
    &&& (a.len() == 0 || a.last() != 92u16)
}

proof fn lemma_args_read(args: Seq<Seq<u16>>)
    requires
        forall|k: int| 0 <= k < args.len() ==> plain_argument(#[trigger] args[k]),
    ensures
        ({
            let st = argv_run(argv_init(), quoted_args(args));
            &&& !st.in_quotes
            &&& st.backslashes == 0
            &&& args.len() == 0 ==> st == argv_init()
            &&& args.len() > 0 ==> st.in_arg && st.done.push(st.cur) == args
        }),
    decreases args.len(),
{
    if args.len() == 0 {
        assert(quoted_args(args) =~= Seq::<u16>::empty());
    } else {
        let prev = args.drop_last();
        let last = args.last();
        assert forall|k: int| 0 <= k < prev.len() implies plain_argument(#[trigger] prev[k]) by {
            assert(prev[k] == args[k]);
        }
        assert(plain_argument(args[args.len() - 1]));
        lemma_args_read(prev);
        let s0 = argv_run(argv_init(), quoted_args(prev));
        assert(quoted_args(args) =~= quoted_args(prev) + (seq![32u16] + quoted(last)));
        lemma_argv_run_append(argv_init(), quoted_args(prev), seq![32u16] + quoted(last));
        lemma_argv_run_append(s0, seq![32u16], quoted(last));
        let s1 = argv_step(s0, 32u16);
        lemma_argv_run_one(s0, 32u16);
        assert(s0.cur + backslashes(0) =~= s0.cur);
        assert(s1.done == prev);
        assert(s1.cur == Seq::<u16>::empty());
        lemma_quoted(s1, last);
        assert(Seq::<u16>::empty() + last =~= last);
        assert(prev.push(last) =~= args);
    }
}

/// Law: the Windows argument rules read the command line back as the shim's path
/// followed by the arguments, unchanged and in order, where the path holds no double
/// quote and no argument holds a double quote or ends in a backslash.
pub proof fn law_command_line_reads_back(shim_path: Seq<u16>, args: Seq<Seq<u16>>)
    requires
        forall|j: int| 0 <= j < shim_path.len() ==> shim_path[j] != 34u16,
        forall|k: int| 0 <= k < args.len() ==> plain_argument(#[trigger] args[k]),
    ensures
        parse_command_line(spec_command_line(shim_path, args)) == seq![shim_path] + args,
{
    lemma_args_read(args);
    let line = spec_command_line(shim_path, args);
    let body = line.drop_last();
    let rest = quoted_args(args);
    assert(body =~= seq![34u16] + shim_path + seq![34u16] + rest);
    assert(body.drop_first() =~= shim_path + (seq![34u16] + rest));
    lemma_first_quote(shim_path, seq![34u16] + rest);
    assert(body.subrange(1, shim_path.len() as int + 1) =~= shim_path);
    assert(body.skip(shim_path.len() as int + 2) =~= rest);
    let st = argv_run(argv_init(), rest);
    if args.len() > 0 {
        assert(st.cur + backslashes(0) =~= st.cur);
    }
    assert(argv_finish(st) == args);
    assert(seq![shim_path] + argv_finish(st) =~= seq![shim_path] + args);
}

} // verus!
