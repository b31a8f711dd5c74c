//! Expansion of command-line arguments with configuration files.
//!
//! An argument `--config=PATH` (any argument that begins with `--config`), or
//! the pair `-f PATH`, stands for the arguments that the TOML file at `PATH`
//! holds; they take its place. Reading the file is the caller's part: a step
//! of the expander either yields an argument, ends, or asks for the
//! arguments of a configuration file.

use vstd::prelude::*;
use crate::text::{has_prefix, str_has_prefix, str_equal, contains_char};

verus! {

/// The character views of a list of strings.
pub open spec fn strings_view(v: Seq<String>) -> Seq<Seq<char>> {
    v.map_values(|s: String| s@)
}

/// The arguments still pending in a stack of argument lists, in the order in
/// which they will be read: the first list first.
pub open spec fn stack_args(stack: Seq<Vec<String>>) -> Seq<Seq<char>>
    decreases stack.len(),
{
    if stack.len() == 0 {
        Seq::empty()
    } else {
        strings_view(stack[0]@) + stack_args(stack.drop_first())
    }
}

/// The option name that introduces a configuration file in one argument.
pub open spec fn config_flag() -> Seq<char> {
    seq!['-', '-', 'c', 'o', 'n', 'f', 'i', 'g']
}

/// The short option whose following argument is a configuration file.
pub open spec fn short_config_flag() -> Seq<char> {
    seq!['-', 'f']
}

/// Index of the first `c` in `s`, or the length of `s` when there is none.
pub open spec fn field_end(s: Seq<char>, c: char) -> int
    decreases s.len(),
{
    if s.len() == 0 {
        0
    } else if s[0] == c {
        0
    } else {
        1 + field_end(s.drop_first(), c)
    }
}

/// The second `=`-separated field of `arg`: the text after the first `=`, up
/// to the next `=` or the end.
pub open spec fn config_path(arg: Seq<char>) -> Seq<char> {
    let tail = arg.subrange(field_end(arg, '=') + 1, arg.len() as int);
    tail.subrange(0, field_end(tail, '='))
}

/// An argument that names its configuration file in itself.
pub open spec fn is_inline_config(arg: Seq<char>) -> bool {
    has_prefix(arg, config_flag())
}

/// The next step can be taken: an inline configuration argument at the front
/// carries an `=` before its path.
pub open spec fn front_is_well_formed(pending: Seq<Seq<char>>) -> bool {
    pending.len() > 0 && is_inline_config(pending[0]) ==> pending[0].contains('=')
}

/// What one step of the expander does.
pub enum Step {
    /// No argument is left.
    Finished,
    /// This argument is the next one.
    Arg(Seq<char>),
    /// The arguments of the configuration file at this path come next.
    Load(Seq<char>),
    /// `-f` ended the arguments: it is the next argument itself, with a notice.
    MissingPath(Seq<char>),
}

/// One step on the pending arguments: what it does, and what stays pending.
pub open spec fn step_spec(pending: Seq<Seq<char>>) -> (Step, Seq<Seq<char>>) {
    if pending.len() == 0 {
        (Step::Finished, pending)
    } else {
        let arg = pending[0];
        let rest = pending.drop_first();
        if is_inline_config(arg) {
            (Step::Load(config_path(arg)), rest)
        } else if arg == short_config_flag() {
            if rest.len() == 0 {
                (Step::MissingPath(arg), rest)
            } else {
                (Step::Load(rest[0]), rest.drop_first())
            }
        } else {
            (Step::Arg(arg), rest)
        }
    }
}

/// The outcome of one step of [`ConfigIterator::next_step`].
pub enum ArgStep {
    /// No argument is left.
    Finished,
    /// This argument is the next one.
    Arg(String),
    /// Read the configuration file at this path and hand its arguments to
    /// [`ConfigIterator::resume_with_configs`].
    LoadConfig(String),
    /// `-f` was the last argument: print [`missing_path_notice`] and take the
    /// argument itself as the next one.
    MissingConfigPath(String),
}

impl View for ArgStep {
    type V = Step;

    open spec fn view(&self) -> Step {
        match self {
            ArgStep::Finished => Step::Finished,
            ArgStep::Arg(a) => Step::Arg(a@),
            ArgStep::LoadConfig(p) => Step::Load(p@),
            ArgStep::MissingConfigPath(a) => Step::MissingPath(a@),
        }
    }
}

/// The notice printed when `-f` is not followed by a path.
pub fn missing_path_notice() -> (s: &'static str)
    ensures
        s@ == "--config must be followed by a path"@,
{
    "--config must be followed by a path"
}

/// An argument iterator that splices in the arguments of configuration files.
pub struct ConfigIterator {
    args_stack: Vec<Vec<String>>,
}

impl View for ConfigIterator {
    type V = Seq<Seq<char>>;

    /// The pending arguments.
    closed spec fn view(&self) -> Seq<Seq<char>> {
        stack_args(self.args_stack@)
    }
}

proof fn lemma_field_end_is(s: Seq<char>, c: char, i: int)
    requires
        0 <= i <= s.len(),
        forall|j: int| 0 <= j < i ==> s[j] != c,
        i == s.len() || s[i] == c,
    ensures
        field_end(s, c) == i,
    decreases i,
{
    if i > 0 {
        lemma_field_end_is(s.drop_first(), c, i - 1);
    }
}

/// Index of the first `c` in `s` at or after `from`, or the length of `s`.
fn find_char(s: &str, from: usize, c: char) -> (i: usize)
    requires
        from <= s@.len(),
    ensures
        from + field_end(s@.subrange(from as int, s@.len() as int), c) == i,
        from <= i <= s@.len(),
{
    let n = s.unicode_len();
    let mut i = from;
    while i < n
        invariant
            n == s@.len(),
            from <= i <= n,
            forall|j: int| from <= j < i ==> s@[j] != c,
        ensures
            from <= i <= n,
            forall|j: int| from <= j < i ==> s@[j] != c,
            i == n || s@[i as int] == c,
        decreases n - i,
    {
        if s.get_char(i) == c {
            break;
        }
        i = i + 1;
    }
    proof {
        lemma_field_end_is(s@.subrange(from as int, s@.len() as int), c, i - from);
    }
    i
}

/// The path that an inline configuration argument names.
fn config_path_of(arg: &str) -> (path: String)
    requires
        arg@.contains('='),
    ensures
        path@ == config_path(arg@),
{
    let n = arg.unicode_len();
    let eq = find_char(arg, 0, '=');
    assert(arg@.subrange(0, n as int) =~= arg@);
    assert(eq < n) by {
        if eq == n {
            assert forall|j: int| 0 <= j < n implies arg@[j] != '=' by {
                lemma_field_end_prefix(arg@, '=', j);
            }
        }
    }
    let end = find_char(arg, eq + 1, '=');
    let path = arg.substring_char(eq + 1, end);
    proof {
        let tail = arg@.subrange(eq + 1, n as int);
        assert(path@ =~= tail.subrange(0, field_end(tail, '=')));
    }
    String::from_str(path)
}

/// Characters before `field_end(s, c)` differ from `c`.
proof fn lemma_field_end_prefix(s: Seq<char>, c: char, j: int)
    requires
        0 <= j < field_end(s, c),
    ensures
        s[j] != c,
        field_end(s, c) <= s.len(),
    decreases s.len(),
{
    if j > 0 {
        lemma_field_end_prefix(s.drop_first(), c, j - 1);
    }
    lemma_field_end_bounds(s, c);
}

proof fn lemma_field_end_bounds(s: Seq<char>, c: char)
    ensures
        0 <= field_end(s, c) <= s.len(),
        field_end(s, c) < s.len() ==> s[field_end(s, c)] == c,
    decreases s.len(),
{
    if s.len() > 0 && s[0] != c {
        lemma_field_end_bounds(s.drop_first(), c);
    }
}


/// The view of an optional string.
pub open spec fn opt_view(o: Option<String>) -> Option<Seq<char>> {
    match o {
        Some(s) => Some(s@),
        None => None,
    }
}

/// Taking the first pending argument: the argument, if any, and what stays
/// pending.
pub open spec fn pop_spec(pending: Seq<Seq<char>>) -> (Option<Seq<char>>, Seq<Seq<char>>) {
    if pending.len() == 0 {
        (None, pending)
    } else {
        (Some(pending[0]), pending.drop_first())
    }
}

/// Index of the first list in `stack` that holds an argument, or the
/// length of `stack` when none does.
pub open spec fn first_nonempty(stack: Seq<Vec<String>>) -> int
    decreases stack.len(),
{
    if stack.len() == 0 {
        0
    } else if stack[0]@.len() > 0 {
        0
    } else {
        1 + first_nonempty(stack.drop_first())
    }
}

proof fn lemma_first_nonempty_is(stack: Seq<Vec<String>>, k: int)
    requires
        0 <= k <= stack.len(),
        forall|i: int| 0 <= i < k ==> (#[trigger] stack[i])@.len() == 0,
        k == stack.len() || stack[k]@.len() > 0,
    ensures
        first_nonempty(stack) == k,
    decreases k,
{
    if k > 0 {
        let t = stack.drop_first();
        assert forall|i: int| 0 <= i < k - 1 implies (#[trigger] t[i])@.len() == 0 by {
            assert(t[i] == stack[i + 1]);
        }
        lemma_first_nonempty_is(t, k - 1);
    }
}

proof fn lemma_stack_args_front(stack: Seq<Vec<String>>)
    requires
        stack.len() > 0,
    ensures
        stack_args(stack) == strings_view(stack[0]@) + stack_args(stack.drop_first()),
{
}

impl ConfigIterator {
    /// An iterator over `args`, read in order.
    pub fn new(args: &[String]) -> (it: Self)
        requires
            args@.len() > 0,
        ensures
            it@ == strings_view(args@),
    {
        let mut first: Vec<String> = Vec::new();
        let mut i: usize = 0;
        while i < args.len()
            invariant
                i <= args@.len(),
                first@ == args@.subrange(0, i as int),
            decreases args@.len() - i,
        {
            first.push(args[i].clone());
            i = i + 1;
            assert(first@ =~= args@.subrange(0, i as int));
        }
        assert(args@.subrange(0, args@.len() as int) =~= args@);
        let mut args_stack: Vec<Vec<String>> = Vec::new();
        args_stack.push(first);
        let it = ConfigIterator { args_stack };
        proof {
            assert(it.args_stack@.drop_first() =~= Seq::<Vec<String>>::empty());
            lemma_stack_args_front(it.args_stack@);
            assert(stack_args(Seq::<Vec<String>>::empty()) =~= Seq::<Seq<char>>::empty());
            assert(it@ =~= strings_view(args@));
        }
        it
    }

    /// Takes the first pending argument out of the stack. The empty lists in
    /// front of the first list that holds an argument are dropped; that list
    /// loses its first argument and stays, even when it is now empty; the
    /// lists behind it are untouched. When no list holds an argument, the
    /// stack is left empty.
    pub fn do_next(args_stack: &mut Vec<Vec<String>>) -> (arg: Option<String>)
        ensures
            first_nonempty(old(args_stack)@) == old(args_stack)@.len() ==> arg is None
                && final(args_stack)@.len() == 0,
            first_nonempty(old(args_stack)@) < old(args_stack)@.len() ==> {
                let s = old(args_stack)@;
                let k = first_nonempty(s);
                &&& arg == Some(s[k]@[0])
                &&& final(args_stack)@.len() == s.len() - k
                &&& final(args_stack)@[0]@ == s[k]@.drop_first()
                &&& final(args_stack)@.drop_first() == s.subrange(k + 1, s.len() as int)
            },
            stack_args(old(args_stack)@).len() == 0 ==> arg is None && stack_args(final(args_stack)@).len() == 0,
            stack_args(old(args_stack)@).len() > 0 ==> opt_view(arg) == Some(stack_args(old(args_stack)@)[0])
                && stack_args(final(args_stack)@) == stack_args(old(args_stack)@).drop_first(),
            (opt_view(arg), stack_args(final(args_stack)@)) == pop_spec(stack_args(old(args_stack)@)),
    {
        let ghost s = args_stack@;
        let ghost mut j: int = 0;
        assert(s.subrange(0, s.len() as int) =~= s);
        loop
            invariant
                stack_args(args_stack@) == stack_args(s),
                s == old(args_stack)@,
                0 <= j <= s.len(),
                args_stack@ == s.subrange(j, s.len() as int),
                forall|i: int| 0 <= i < j ==> (#[trigger] s[i])@.len() == 0,
            decreases args_stack@.len(),
        {
            if args_stack.len() == 0 {
                proof {
                    lemma_first_nonempty_is(s, j);
                }
                return None;
            }
            let ghost before = args_stack@;
            let mut first = args_stack.remove(0);
            proof {
                lemma_stack_args_front(before);
                assert(args_stack@ =~= before.drop_first());
                assert(first == s[j]);
            }
            if first.len() > 0 {
                let ghost whole = first@;
                let arg = first.remove(0);
                args_stack.insert(0, first);
                proof {
                    assert(args_stack@.drop_first() =~= before.drop_first());
                    lemma_stack_args_front(args_stack@);
                    assert(strings_view(first@) =~= strings_view(whole).drop_first());
                    assert(stack_args(args_stack@) =~= stack_args(before).drop_first());
                    lemma_first_nonempty_is(s, j);
                    assert(args_stack@.drop_first() =~= s.subrange(j + 1, s.len() as int));
                    assert(first@ =~= whole.drop_first());
                }
                return Some(arg);
            }
            proof {
                assert(strings_view(first@) =~= Seq::<Seq<char>>::empty());
                assert(stack_args(args_stack@) =~= stack_args(before));
                j = j + 1;
                assert(args_stack@ =~= s.subrange(j, s.len() as int));
            }
        }
    }

    /// Whether [`ConfigIterator::next_step`] can be taken.
    pub fn front_is_well_formed(&self) -> (b: bool)
        ensures
            b == front_is_well_formed(self@),
    {
        let mut k: usize = 0;
        assert(self.args_stack@.subrange(0, self.args_stack@.len() as int) =~= self.args_stack@);
        while k < self.args_stack.len()
            invariant
                k <= self.args_stack@.len(),
                stack_args(self.args_stack@.subrange(k as int, self.args_stack@.len() as int)) == self@,
            decreases self.args_stack@.len() - k,
        {
            let ghost tail = self.args_stack@.subrange(k as int, self.args_stack@.len() as int);
            proof {
                lemma_stack_args_front(tail);
                assert(tail[0] == self.args_stack@[k as int]);
                assert(tail.drop_first() =~= self.args_stack@.subrange(k + 1, self.args_stack@.len() as int));
            }
            if self.args_stack[k].len() > 0 {
                let front: &String = &self.args_stack[k][0];
                assert(self@[0] == front@);
                proof {
                    reveal_strlit("--config");
                    assert("--config"@ =~= config_flag());
                }
                if str_has_prefix(front.as_str(), "--config") {
                    return contains_char(front.as_str(), '=');
                }
                return true;
            }
            assert(strings_view(self.args_stack@[k as int]@) =~= Seq::<Seq<char>>::empty());
            k = k + 1;
        }
        assert(self.args_stack@.subrange(k as int, self.args_stack@.len() as int) =~= Seq::<Vec<String>>::empty());
        true
    }

    /// One step of the expander. An argument that begins with `--config`
    /// names its configuration file after its first `=`; `-f` takes the next
    /// argument as the path; any other argument is the next one as it is.
    pub fn next_step(&mut self) -> (step: ArgStep)
        requires
            front_is_well_formed(old(self)@),
        ensures
            step@ == step_spec(old(self)@).0,
            final(self)@ == step_spec(old(self)@).1,
    {
        proof {
            reveal_strlit("--config");
            reveal_strlit("-f");
            assert("--config"@ =~= config_flag());
            assert("-f"@ =~= short_config_flag());
        }
        match Self::do_next(&mut self.args_stack) {
            None => ArgStep::Finished,
            Some(arg) => {
                if str_has_prefix(arg.as_str(), "--config") {
                    ArgStep::LoadConfig(config_path_of(arg.as_str()))
                } else if str_equal(arg.as_str(), "-f") {
                    match Self::do_next(&mut self.args_stack) {
                        Some(path) => ArgStep::LoadConfig(path),
                        None => ArgStep::MissingConfigPath(arg),
                    }
                } else {
                    ArgStep::Arg(arg)
                }
            },
        }
    }

    /// Puts the arguments of a configuration file in front of the pending
    /// ones and takes the first pending argument as it is.
    pub fn resume_with_configs(&mut self, configs: Vec<String>) -> (arg: Option<String>)
        ensures
            pop_spec(strings_view(configs@) + old(self)@) == (opt_view(arg), final(self)@),
    {
        let ghost before = self.args_stack@;
        self.args_stack.insert(0, configs);
        proof {
            lemma_stack_args_front(self.args_stack@);
            assert(self.args_stack@.drop_first() =~= before);
        }
        Self::do_next(&mut self.args_stack)
    }
}

/// An argument that introduces a configuration file.
pub open spec fn is_config_option(arg: Seq<char>) -> bool {
    is_inline_config(arg) || arg == short_config_flag()
}

/// No pending argument introduces a configuration file.
pub open spec fn no_config_options(pending: Seq<Seq<char>>) -> bool {
    forall|i: int| 0 <= i < pending.len() ==> !is_config_option(#[trigger] pending[i])
}

/// The outcomes of `n` steps, starting from the pending arguments `pending`,
/// where no configuration file is read.
pub open spec fn run_steps(pending: Seq<Seq<char>>, n: nat) -> Seq<Step>
    decreases n,
{
    if n == 0 {
        Seq::empty()
    } else {
        seq![step_spec(pending).0] + run_steps(step_spec(pending).1, (n - 1) as nat)
    }
}

/// Arguments that introduce no configuration file come out of the expander
/// one by one, unchanged and in their order; after them it reports the end,
/// and keeps reporting it however often it is asked.
pub proof fn lemma_plain_arguments_pass_through(pending: Seq<Seq<char>>, n: nat)
    requires
        no_config_options(pending),
    ensures
        run_steps(pending, n).len() == n,
        forall|k: int| 0 <= k < n ==> #[trigger] run_steps(pending, n)[k] == (
            if k < pending.len() { Step::Arg(pending[k]) } else { Step::Finished }),
    decreases n,
{
    if n > 0 {
        let rest = step_spec(pending).1;
        if pending.len() > 0 {
            assert(!is_config_option(pending[0]));
            assert(rest == pending.drop_first());
            assert forall|i: int| 0 <= i < rest.len() implies !is_config_option(#[trigger] rest[i]) by {
                assert(rest[i] == pending[i + 1]);
            }
        } else {
            assert(rest == pending);
        }
        lemma_plain_arguments_pass_through(rest, (n - 1) as nat);
        let r = run_steps(pending, n);
        assert forall|k: int| 0 <= k < n implies #[trigger] r[k] == (
            if k < pending.len() { Step::Arg(pending[k]) } else { Step::Finished }) by {
            if k > 0 {
                assert(r[k] == run_steps(rest, (n - 1) as nat)[k - 1]);
                if pending.len() > 0 {
                    if k < pending.len() {
                        assert(rest[k - 1] == pending[k]);
                    }
                }
            }
        }
    }
}

/// A configuration argument gives way to the arguments of its file: the step
/// asks for the file named after its first `=`, and once the file's
/// arguments are handed over they come first, followed by the arguments that
/// were pending after the configuration argument.
pub proof fn lemma_config_argument_is_replaced(pending: Seq<Seq<char>>, configs: Seq<Seq<char>>)
    requires
        pending.len() > 0,
        is_inline_config(pending[0]),
    ensures
        step_spec(pending).0 == Step::Load(config_path(pending[0])),
        configs + step_spec(pending).1 == configs + pending.subrange(1, pending.len() as int),
        pop_spec(configs + step_spec(pending).1).0 == (if configs.len() > 0 {
            Some(configs[0])
        } else if pending.len() > 1 {
            Some(pending[1])
        } else {
            None::<Seq<char>>
        }),
{
    assert(pending.drop_first() =~= pending.subrange(1, pending.len() as int));
    if configs.len() == 0 && pending.len() > 1 {
        assert((configs + pending.drop_first())[0] == pending[1]);
    }
}

/// The argument that the `(j + 1)`-th of a run of takes returns, the run
/// starting from the pending arguments `pending`.
pub open spec fn nth_take(pending: Seq<Seq<char>>, j: nat) -> Option<Seq<char>>
    decreases j,
{
    if j == 0 {
        pop_spec(pending).0
    } else {
        nth_take(pop_spec(pending).1, (j - 1) as nat)
    }
}

/// A run of [`ConfigIterator::do_next`] calls on one stack, with nothing
/// else changing it in between, yields the arguments of the stack's lists
/// front to back, list after list, and then `None` for ever: the
/// `(j + 1)`-th call returns the `j`-th pending argument, or `None` once
/// they are used up.
pub proof fn lemma_takes_run_front_to_back(pending: Seq<Seq<char>>, j: nat)
    ensures
        nth_take(pending, j) == (if j < pending.len() { Some(pending[j as int]) } else { None }),
    decreases j,
{
    if j > 0 {
        let rest = pop_spec(pending).1;
        lemma_takes_run_front_to_back(rest, (j - 1) as nat);
        if pending.len() > 0 {
            if j < pending.len() {
                assert(rest[j - 1] == pending[j as int]);
            }
        }
    }
}

/// `-f` followed by an argument asks for the file named by that argument,
/// which is taken out, and leaves everything after it pending; only a `-f`
/// with nothing after it gives the missing-path notice, yielding itself.
pub proof fn lemma_short_option_loads_next_argument(p: Seq<char>, r: Seq<Seq<char>>)
    ensures
        step_spec(seq![seq!['-', 'f'], p] + r) == (Step::Load(p), r),
        step_spec(seq![seq!['-', 'f']]) == (Step::MissingPath(seq!['-', 'f']), Seq::<Seq<char>>::empty()),
{
    let pending = seq![seq!['-', 'f'], p] + r;
    assert(pending[0] == seq!['-', 'f']);
    assert(!is_inline_config(pending[0]));
    assert(pending[0] =~= short_config_flag());
    assert(pending.drop_first()[0] == p);
    assert(pending.drop_first().drop_first() =~= r);
    let single = seq![seq!['-', 'f']];
    assert(single[0] =~= short_config_flag());
    assert(single.drop_first() =~= Seq::<Seq<char>>::empty());
}

/// An inline configuration argument `--config` + `s` + `=` + `p` + `r`,
/// where `s` and `p` hold no `=` and `r` is empty or begins with `=`, asks
/// for the file `p`, every character of `p` kept, and leaves the arguments
/// after it pending.
pub proof fn lemma_inline_config_loads_its_path(
    s: Seq<char>,
    p: Seq<char>,
    r: Seq<char>,
    rest: Seq<Seq<char>>,
)
    requires
        !s.contains('='),
        !p.contains('='),
        r.len() == 0 || r[0] == '=',
    ensures
        ({
            let arg = seq!['-', '-', 'c', 'o', 'n', 'f', 'i', 'g'] + s + seq!['='] + p + r;
            &&& config_path(arg) == p
            &&& front_is_well_formed(seq![arg] + rest)
            &&& step_spec(seq![arg] + rest) == (Step::Load(p), rest)
        }),
{
    let flag = seq!['-', '-', 'c', 'o', 'n', 'f', 'i', 'g'];
    let arg = flag + s + seq!['='] + p + r;
    let e: int = 8 + s.len() as int;
    assert forall|j: int| 0 <= j < e implies arg[j] != '=' by {
        if j >= 8 {
            assert(arg[j] == s[j - 8]);
        }
    }
    assert(arg[e] == '=');
    lemma_field_end_is(arg, '=', e);
    let tail = arg.subrange(e + 1, arg.len() as int);
    assert(tail =~= p + r);
    assert forall|j: int| 0 <= j < p.len() implies tail[j] != '=' by {
        assert(tail[j] == p[j]);
    }
    if r.len() > 0 {
        assert(tail[p.len() as int] == r[0]);
    }
    lemma_field_end_is(tail, '=', p.len() as int);
    assert(tail.subrange(0, p.len() as int) =~= p);
    let pending = seq![arg] + rest;
    assert(pending[0] == arg);
    assert(arg.subrange(0, 8) =~= config_flag());
    assert(arg.contains('='));
    assert(pending.drop_first() =~= rest);
}

} // verus!
