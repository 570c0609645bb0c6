//! What to do to a file: the requested actions, the input and the output paths.
use vstd::prelude::*;

use crate::text::{
    chars_of, find_char, find_char_exec, is_white_char, push_range, strip_to, string_of_range, views,
};

verus! {

/// A requested transformation.
#[derive(Debug, PartialEq)]
pub enum Action {
    /// Remove the named attribute from every HTML element.
    RemoveProp(String),
}

/// Name of the attribute an action is about.
pub open spec fn target(a: Action) -> Seq<char> {
    match a {
        Action::RemoveProp(p) => p@,
    }
}

/// A configuration ready to run: paths are plain strings; that the input is
/// a file and the output no directory is checked where the files are.
#[derive(Debug)]
pub struct Config {
    pub input: String,
    pub output: String,
    pub actions: Vec<Action>,
}

/// Collects the parts of a `Config`.
#[derive(Debug)]
pub struct ConfigBuilder {
    pub input: Option<String>,
    pub output: Option<String>,
    pub actions: Vec<Action>,
}

/// The view of an optional string.
pub open spec fn opt_view(o: Option<String>) -> Option<Seq<char>> {
    match o {
        Some(s) => Some(s@),
        None => None,
    }
}

/// The attribute names of a list of actions.
pub open spec fn targets(a: Seq<Action>) -> Seq<Seq<char>> {
    a.map_values(|x: Action| target(x))
}

/// The strings of `v` joined with a space between each two.
pub open spec fn join_spaced(v: Seq<Seq<char>>) -> Seq<char>
    decreases v.len(),
{
    if v.len() == 0 {
        Seq::empty()
    } else if v.len() == 1 {
        v[0]
    } else {
        join_spaced(v.drop_last()) + seq![' '] + v.last()
    }
}

/// The pieces of `s[i..]` between non-overlapping `--` marks, scanned from the
/// left, the first of them continuing `cur`.
pub open spec fn dash_split(s: Seq<char>, i: int, cur: Seq<char>) -> Seq<Seq<char>>
    decreases s.len() - i,
{
    if i < 0 || i >= s.len() {
        seq![cur]
    } else if i + 1 < s.len() && s[i] == '-' && s[i + 1] == '-' {
        seq![cur] + dash_split(s, i + 2, Seq::empty())
    } else {
        dash_split(s, i + 1, cur.push(s[i]))
    }
}

/// `s` without whitespace at its end (`str::trim_end`).
pub open spec fn trim_end(s: Seq<char>) -> Seq<char> {
    s.take(strip_to(s, false, 0, s.len() as int))
}

pub open spec fn starts_with(s: Seq<char>, p: Seq<char>) -> bool {
    p.len() <= s.len() && s.take(p.len() as int) == p
}

/// What follows the first space of `s`, if there is one (`split_once(' ')`).
pub open spec fn after_space(s: Seq<char>) -> Option<Seq<char>> {
    let k = find_char(s, ' ', 0);
    if k < s.len() {
        Some(s.skip(k + 1))
    } else {
        None
    }
}

/// The value given after an option's name, or `default` when none is.
pub open spec fn value_or(s: Seq<char>, default: Seq<char>) -> Seq<char> {
    match after_space(s) {
        Some(v) => v,
        None => default,
    }
}

/// One option applied to the output path and the attribute names so far.
pub open spec fn apply_option(opt: Seq<char>, out: Option<Seq<char>>, acts: Seq<Seq<char>>) -> (
    Option<Seq<char>>,
    Seq<Seq<char>>,
) {
    let t = trim_end(opt);
    if starts_with(t, "output"@) {
        (after_space(t), acts)
    } else if starts_with(t, "remove-prop"@) {
        (out, acts.push(value_or(t, "data-testid"@)))
    } else {
        (out, acts)
    }
}

/// The options applied in order.
pub open spec fn apply_options(opts: Seq<Seq<char>>, out: Option<Seq<char>>, acts: Seq<Seq<char>>) -> (
    Option<Seq<char>>,
    Seq<Seq<char>>,
)
    decreases opts.len(),
{
    if opts.len() == 0 {
        (out, acts)
    } else {
        let p = apply_options(opts.drop_last(), out, acts);
        apply_option(opts.last(), p.0, p.1)
    }
}

/// The options of an argument list: all after the first argument, joined by
/// spaces and cut at each `--`.
pub open spec fn options_of(args: Seq<Seq<char>>) -> Seq<Seq<char>> {
    dash_split(join_spaced(rest_args(args)), 0, Seq::empty())
}

/// The arguments after the first.
pub open spec fn rest_args(args: Seq<Seq<char>>) -> Seq<Seq<char>> {
    if args.len() > 0 {
        args.skip(1)
    } else {
        Seq::empty()
    }
}

/// Start of the file name: just past the last `/` before `j`.
pub open spec fn name_start(p: Seq<char>, j: int) -> int
    decreases j,
{
    if j <= 0 || j > p.len() {
        0
    } else if p[j - 1] == '/' {
        j
    } else {
        name_start(p, j - 1)
    }
}

/// Index of the last `.` in `p[lo..j]`, or -1.
pub open spec fn last_dot(p: Seq<char>, lo: int, j: int) -> int
    decreases j - lo,
{
    if j <= lo || j > p.len() {
        -1
    } else if p[j - 1] == '.' {
        j - 1
    } else {
        last_dot(p, lo, j - 1)
    }
}

/// The default output path: `updated.` inserted before the extension of the
/// file name (`a/sample.jsx` gives `a/sample.updated.jsx`). A name without an
/// extension (no `.` after its first character, or `..`) keeps the path as it is.
pub open spec fn updated_path(p: Seq<char>) -> Seq<char> {
    let st = name_start(p, p.len() as int);
    let d = last_dot(p, st, p.len() as int);
    if d > st && p.skip(st) != seq!['.', '.'] {
        p.take(d + 1) + "updated."@ + p.skip(d + 1)
    } else {
        p
    }
}

fn starts_with_exec(s: &Vec<char>, p: &Vec<char>) -> (r: bool)
    ensures
        r == starts_with(s@, p@),
{
    if p.len() > s.len() {
        return false;
    }
    let mut i: usize = 0;
    while i < p.len()
        invariant
            p.len() <= s.len(),
            i <= p.len(),
            forall|k: int| 0 <= k < i ==> s@[k] == p@[k],
        decreases p.len() - i,
    {
        if s[i] != p[i] {
            assert(s@.take(p.len() as int)[i as int] != p@[i as int]);
            return false;
        }
        i = i + 1;
    }
    assert(s@.take(p.len() as int) =~= p@);
    true
}

/// Executable `after_space`.
fn after_space_exec(s: &Vec<char>) -> (r: Option<String>)
    ensures
        opt_view(r) == after_space(s@),
{
    let k = find_char_exec(s, ' ');
    if k < s.len() {
        let v = string_of_range(s, k + 1, s.len());
        assert(s@.subrange(k + 1, s@.len() as int) =~= s@.skip(k + 1));
        Some(v)
    } else {
        None
    }
}

/// The value that follows an option's name after a space, or `default_value`.
pub fn parse_value_to_string(value: &str, default_value: &str) -> (r: String)
    ensures
        r@ == value_or(value@, default_value@),
{
    let v = chars_of(value);
    match after_space_exec(&v) {
        Some(s) => s,
        None => default_value.to_owned(),
    }
}

/// The view of a list of character vectors.
pub open spec fn vviews(v: Seq<Vec<char>>) -> Seq<Seq<char>> {
    v.map_values(|x: Vec<char>| x@)
}

fn trim_end_exec(s: &Vec<char>) -> (r: Vec<char>)
    ensures
        r@ == trim_end(s@),
{
    let mut b: usize = s.len();
    while b > 0 && is_white_char(s[b - 1])
        invariant
            b <= s.len(),
            strip_to(s@, false, 0, s.len() as int) == strip_to(s@, false, 0, b as int),
        decreases b,
    {
        b = b - 1;
    }
    let mut r: Vec<char> = Vec::new();
    push_range(&mut r, s, 0, b);
    assert(r@ =~= trim_end(s@));
    r
}

/// The options of an argument list, each as its characters.
fn split_options(args: &[String]) -> (r: Vec<Vec<char>>)
    ensures
        vviews(r@) == options_of(views(args@)),
{
    let ghost v = rest_args(views(args@));
    let mut joined: Vec<char> = Vec::new();
    let mut m: usize = 1;
    assert(v.take(0) =~= Seq::<Seq<char>>::empty());
    while m < args.len()
        invariant
            1 <= m <= args.len() || (m == 1 && args.len() == 0),
            v == rest_args(views(args@)),
            joined@ == join_spaced(v.take(m - 1)),
        decreases args.len() - m,
    {
        let a = chars_of(args[m].as_str());
        assert(a@ == v[m - 1]);
        if m > 1 {
            joined.push(' ');
        }
        push_range(&mut joined, &a, 0, a.len());
        proof {
            let w = v.take(m as int);
            assert(w.drop_last() =~= v.take(m - 1));
            assert(a@.subrange(0, a@.len() as int) =~= a@);
            if m == 1 {
                assert(joined@ =~= w[0]);
            } else {
                assert(joined@ =~= join_spaced(w.drop_last()) + seq![' '] + w.last());
            }
        }
        m = m + 1;
    }
    proof {
        if args.len() > 0 {
            assert(v.take(args.len() - 1) =~= v);
        } else {
            assert(v =~= Seq::<Seq<char>>::empty());
        }
    }
    let n = joined.len();
    let mut opts: Vec<Vec<char>> = Vec::new();
    let mut cur: Vec<char> = Vec::new();
    let mut i: usize = 0;
    assert(vviews(opts@) + dash_split(joined@, 0, cur@) =~= dash_split(joined@, 0, Seq::empty()));
    while i < n
        invariant
            n == joined.len(),
            i <= n,
            vviews(opts@) + dash_split(joined@, i as int, cur@) == dash_split(
                joined@,
                0,
                Seq::empty(),
            ),
        decreases n - i,
    {
        if i + 1 < n && joined[i] == '-' && joined[i + 1] == '-' {
            let ghost o = opts@;
            let ghost c = cur@;
            opts.push(cur);
            cur = Vec::new();
            assert(vviews(opts@) =~= vviews(o) + seq![c]);
            assert(dash_split(joined@, i as int, c) == seq![c] + dash_split(
                joined@,
                i + 2,
                Seq::empty(),
            ));
            assert(vviews(opts@) + dash_split(joined@, i + 2, cur@) =~= vviews(o) + dash_split(
                joined@,
                i as int,
                c,
            ));
            i = i + 2;
        } else {
            cur.push(joined[i]);
            i = i + 1;
        }
    }
    let ghost o = opts@;
    let ghost c = cur@;
    opts.push(cur);
    assert(vviews(opts@) =~= vviews(o) + seq![c]);
    opts
}

/// Executable `updated_path`.
fn updated_path_exec(p: &String) -> (r: String)
    ensures
        r@ == updated_path(p@),
{
    let v = chars_of(p.as_str());
    let n = v.len();
    let mut st: usize = n;
    while st > 0 && v[st - 1] != '/'
        invariant
            st <= n == v.len(),
            name_start(v@, n as int) == name_start(v@, st as int),
        decreases st,
    {
        st = st - 1;
    }
    let mut j: usize = n;
    while j > st && v[j - 1] != '.'
        invariant
            st <= j <= n == v.len(),
            last_dot(v@, st as int, n as int) == last_dot(v@, st as int, j as int),
        decreases j,
    {
        j = j - 1;
    }
    let dots = n - st == 2 && v[st] == '.' && v[st + 1] == '.';
    proof {
        let nm = v@.skip(st as int);
        assert(nm.len() == n - st);
        if nm == seq!['.', '.'] {
            assert(nm[0] == v@[st as int]);
            assert(nm[1] == v@[st + 1]);
        }
        if dots {
            assert(v@.skip(st as int) =~= seq!['.', '.']);
        }
    }
    if j > st && j - 1 > st && !dots {
        let d = j - 1;
        let mut r: Vec<char> = Vec::new();
        push_range(&mut r, &v, 0, d + 1);
        let mid = chars_of("updated.");
        push_range(&mut r, &mid, 0, mid.len());
        push_range(&mut r, &v, d + 1, n);
        assert(r@ =~= v@.take(d + 1) + "updated."@ + v@.skip(d + 1));
        string_of_range(&r, 0, r.len())
    } else {
        p.clone()
    }
}

impl ConfigBuilder {
    /// Reads the input path (the first argument) and the options after it:
    /// `--output <file>` and `--remove-prop [name]` (`data-testid` when no
    /// name is given).
    pub fn parse_args(self, args: &[String]) -> (r: Self)
        ensures
            r.input == if args@.len() > 0 {
                Some(args@[0])
            } else {
                self.input
            },
            (opt_view(r.output), targets(r.actions@)) == apply_options(
                options_of(views(args@)),
                opt_view(self.output),
                targets(self.actions@),
            ),
    {
        let mut b = self;
        if args.len() > 0 {
            b.input = Some(args[0].clone());
        }
        let ghost input_after = b.input;
        let opts = split_options(args);
        let ghost ov = vviews(opts@);
        let ghost out0 = opt_view(b.output);
        let ghost acts0 = targets(b.actions@);
        let output_lit = chars_of("output");
        let remove_lit = chars_of("remove-prop");
        let mut k: usize = 0;
        assert(ov.take(0) =~= Seq::<Seq<char>>::empty());
        while k < opts.len()
            invariant
                k <= opts.len(),
                ov == vviews(opts@),
                b.input == input_after,
                output_lit@ == "output"@,
                remove_lit@ == "remove-prop"@,
                (opt_view(b.output), targets(b.actions@)) == apply_options(
                    ov.take(k as int),
                    out0,
                    acts0,
                ),
            decreases opts.len() - k,
        {
            assert(ov.take(k + 1).drop_last() =~= ov.take(k as int));
            assert(opts@[k as int]@ == ov[k as int]);
            let t = trim_end_exec(&opts[k]);
            if starts_with_exec(&t, &output_lit) {
                b.output = after_space_exec(&t);
            } else if starts_with_exec(&t, &remove_lit) {
                let value = match after_space_exec(&t) {
                    Some(v) => v,
                    None => "data-testid".to_owned(),
                };
                let ghost a0 = b.actions@;
                let ghost vv = value@;
                b.actions.push(Action::RemoveProp(value));
                assert(targets(b.actions@) =~= targets(a0).push(vv));
            }
            k = k + 1;
        }
        assert(ov.take(opts.len() as int) =~= ov);
        b
    }

    /// The configuration, once an input and at least one action are given;
    /// without an output path, the input's with `updated.` before its extension.
    pub fn build(self) -> (r: Result<Config, &'static str>)
        ensures
            match r {
                Ok(c) => {
                    &&& self.input == Some(c.input)
                    &&& self.actions@.len() > 0
                    &&& c.actions == self.actions
                    &&& c.output@ == match self.output {
                        Some(o) => o@,
                        None => updated_path(c.input@),
                    }
                },
                Err(e) => {
                    ||| self.input is None && e@ == "Input file is not present."@
                    ||| self.input is Some && self.actions@.len() == 0 && e@
                        == "Actions are not present."@
                },
            },
    {
        let input = match self.input {
            Some(i) => i,
            None => {
                return Err("Input file is not present.");
            },
        };
        if self.actions.len() == 0 {
            return Err("Actions are not present.");
        }
        let output = match self.output {
            Some(o) => o,
            None => updated_path_exec(&input),
        };
        Ok(Config { input, output, actions: self.actions })
    }

    /// A builder with no input, no output and no action.
    pub fn new() -> (r: Self)
        ensures
            r.input is None,
            r.output is None,
            r.actions@.len() == 0,
    {
        Self { input: None, output: None, actions: Vec::new() }
    }

    /// Appends an action.
    pub fn add_action(self, action: Action) -> (r: Self)
        ensures
            r.input == self.input,
            r.output == self.output,
            r.actions@ == self.actions@.push(action),
    {
        let mut b = self;
        b.actions.push(action);
        b
    }

    /// Sets the input path.
    pub fn input(self, file: String) -> (r: Self)
        ensures
            r.input == Some(file),
            r.output == self.output,
            r.actions == self.actions,
    {
        let mut b = self;
        b.input = Some(file);
        b
    }

    /// Sets the output path.
    pub fn output(self, file: String) -> (r: Self)
        ensures
            r.input == self.input,
            r.output == Some(file),
            r.actions == self.actions,
    {
        let mut b = self;
        b.output = Some(file);
        b
    }
}

} // verus!
