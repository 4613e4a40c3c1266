//! A parameterized SVG text template: `{name}` is replaced by the named
//! argument, `\` escapes the next character, and rendering fails on a
//! trailing backslash, an unclosed brace, or a missing parameter.

use vstd::prelude::*;

verus! {

/// Why rendering a template failed.
#[derive(Clone, Copy, PartialEq, Eq, Structural, Debug)]
pub enum SvgError {
    /// The template ends in the middle of an escape sequence.
    UnterminatedEscape,
    /// A `{` is never closed.
    UnclosedBrace,
    /// A `{name}` has no provided value.
    MissingParameter,
}

/// An SVG text template plus the arguments to substitute into it.
pub struct SvgString {
    pub template: String,
    pub arguments: Vec<(String, String)>,
}

/// The value of the first argument named `name`, searched from position `k`.
pub open spec fn lookup_spec(args: Seq<(String, String)>, k: int, name: Seq<char>) -> Option<
    Seq<char>,
>
    decreases args.len() - k
        when 0 <= k <= args.len()
{
    if k >= args.len() {
        None
    } else if args[k].0@ == name {
        Some(args[k].1@)
    } else {
        lookup_spec(args, k + 1, name)
    }
}

/// The rendered suffix of the template from position `i`.
pub open spec fn render_spec(s: Seq<char>, args: Seq<(String, String)>, i: int) -> Result<
    Seq<char>,
    SvgError,
>
    decreases s.len() - i
        when 0 <= i <= s.len()
{
    if i >= s.len() {
        Ok(Seq::<char>::empty())
    } else if s[i] == '\\' {
        if i + 1 >= s.len() {
            Err(SvgError::UnterminatedEscape)
        } else {
            match render_spec(s, args, i + 2) {
                Ok(rest) => Ok(seq![s[i + 1]] + rest),
                Err(e) => Err(e),
            }
        }
    } else if s[i] == '{' {
        subst_spec(s, args, i + 1, Seq::<char>::empty())
    } else {
        match render_spec(s, args, i + 1) {
            Ok(rest) => Ok(seq![s[i]] + rest),
            Err(e) => Err(e),
        }
    }
}

/// The rendered suffix while scanning a parameter name that started before
/// position `i`; `name` holds the characters read so far.
pub open spec fn subst_spec(s: Seq<char>, args: Seq<(String, String)>, i: int, name: Seq<char>) -> Result<
    Seq<char>,
    SvgError,
>
    decreases s.len() - i
        when 0 <= i <= s.len()
{
    if i >= s.len() {
        Err(SvgError::UnclosedBrace)
    } else if s[i] == '}' {
        match lookup_spec(args, 0, name) {
            None => Err(SvgError::MissingParameter),
            Some(v) => match render_spec(s, args, i + 1) {
                Ok(rest) => Ok(v + rest),
                Err(e) => Err(e),
            },
        }
    } else {
        subst_spec(s, args, i + 1, name.push(s[i]))
    }
}

/// Relies on String::push: appends exactly the given character to the end of
/// the string.
#[verifier::external_body]
fn push_char(s: &mut String, c: char)
    ensures
        final(s)@ == old(s)@.push(c),
{
    s.push(c);
}

/// Looks up the first argument named `name`, searching from position `k`.
fn lookup_from(args: &Vec<(String, String)>, k: usize, name: &String) -> (r: Option<String>)
    requires
        k <= args@.len(),
    ensures
        r is Some <==> lookup_spec(args@, k as int, name@) is Some,
        r matches Some(v) ==> v@ == lookup_spec(args@, k as int, name@)->0,
    decreases args@.len() - k,
{
    if k >= args.len() {
        None
    } else {
        let pair = &args[k];
        if pair.0 == *name {
            Some(pair.1.clone())
        } else {
            lookup_from(args, k + 1, name)
        }
    }
}

/// Renders the template suffix from `i`, appending to `out`.
fn render_from(s: &str, args: &Vec<(String, String)>, i: usize, out: &mut String) -> (r: Result<
    (),
    SvgError,
>)
    requires
        i <= s@.len(),
        s@.len() <= usize::MAX - 2,
    ensures
        match render_spec(s@, args@, i as int) {
            Ok(t) => r is Ok && final(out)@ == old(out)@ + t,
            Err(e) => r == Err::<(), SvgError>(e),
        },
    decreases s@.len() - i,
{
    let n = s.unicode_len();
    if i >= n {
        proof {
            assert(old(out)@ + Seq::<char>::empty() =~= old(out)@);
        }
        return Ok(());
    }
    let c = s.get_char(i);
    if c == '\\' {
        if i + 1 >= n {
            Err(SvgError::UnterminatedEscape)
        } else {
            let c2 = s.get_char(i + 1);
            push_char(out, c2);
            let ghost mid = out@;
            let r = render_from(s, args, i + 2, out);
            proof {
                if render_spec(s@, args@, i + 2) is Ok {
                    let rest = render_spec(s@, args@, i + 2)->Ok_0;
                    assert(mid + rest =~= old(out)@ + (seq![s@[i + 1]] + rest));
                }
            }
            r
        }
    } else if c == '{' {
        let mut name = String::new();
        subst_from(s, args, i + 1, &mut name, out)
    } else {
        push_char(out, c);
        let ghost mid = out@;
        let r = render_from(s, args, i + 1, out);
        proof {
            if render_spec(s@, args@, i + 1) is Ok {
                let rest = render_spec(s@, args@, i + 1)->Ok_0;
                assert(mid + rest =~= old(out)@ + (seq![s@[i as int]] + rest));
            }
        }
        r
    }
}

/// Scans a parameter name up to its closing brace, then substitutes it and
/// renders the remainder, appending to `out`.
fn subst_from(s: &str, args: &Vec<(String, String)>, i: usize, name: &mut String, out: &mut String) -> (r: Result<
    (),
    SvgError,
>)
    requires
        i <= s@.len(),
        s@.len() <= usize::MAX - 2,
    ensures
        match subst_spec(s@, args@, i as int, old(name)@) {
            Ok(t) => r is Ok && final(out)@ == old(out)@ + t,
            Err(e) => r == Err::<(), SvgError>(e),
        },
    decreases s@.len() - i,
{
    let n = s.unicode_len();
    if i >= n {
        return Err(SvgError::UnclosedBrace);
    }
    let c = s.get_char(i);
    if c == '}' {
        match lookup_from(args, 0, name) {
            None => Err(SvgError::MissingParameter),
            Some(v) => {
                out.append(v.as_str());
                let ghost mid = out@;
                let r = render_from(s, args, i + 1, out);
                proof {
                    if render_spec(s@, args@, i + 1) is Ok {
                        let rest = render_spec(s@, args@, i + 1)->Ok_0;
                        assert(mid + rest =~= old(out)@ + (lookup_spec(args@, 0, old(name)@)->0
                            + rest));
                    }
                }
                r
            },
        }
    } else {
        push_char(name, c);
        subst_from(s, args, i + 1, name, out)
    }
}

impl SvgString {
    /// A template with no arguments yet.
    pub fn new(string: String) -> (r: SvgString)
        ensures
            r.template == string,
            r.arguments@ == Seq::<(String, String)>::empty(),
    {
        SvgString { template: string, arguments: Vec::new() }
    }

    /// Replaces the arguments that will be substituted into the template.
    pub fn set_parameters(&mut self, svg_arguments: Vec<(String, String)>)
        ensures
            final(self).template == old(self).template,
            final(self).arguments == svg_arguments,
    {
        self.arguments = svg_arguments;
    }

    /// Renders the template: `{name}` becomes the named argument's value and
    /// `\` escapes the next character. Fails with the exact reason on a
    /// trailing backslash, an unclosed `{`, or a missing parameter.
    pub fn render(&self) -> (r: Result<String, SvgError>)
        requires
            self.template@.len() <= usize::MAX - 2,
        ensures
            match render_spec(self.template@, self.arguments@, 0) {
                Ok(t) => r matches Ok(v) && v@ == t,
                Err(e) => r == Err::<String, SvgError>(e),
            },
    {
        let mut out = String::new();
        match render_from(self.template.as_str(), &self.arguments, 0, &mut out) {
            Ok(()) => Ok(out),
            Err(e) => Err(e),
        }
    }
}

impl Default for SvgString {
    /// An empty template with no arguments.
    fn default() -> (r: SvgString)
        ensures
            r.template@ == Seq::<char>::empty(),
            r.arguments@ == Seq::<(String, String)>::empty(),
    {
        SvgString { template: String::new(), arguments: Vec::new() }
    }
}

} // verus!
