//! Keeping secrets out of logged command lines: the value of an option whose
//! name speaks of a secret is replaced by `[REDACTED]`.

use vstd::prelude::*;
use crate::cli::{first_eq, lemma_first_eq, texts_of};
use crate::text::{chars_of, push_str, string_of};

verus! {

/// ASCII letters in lower case; other characters unchanged.
pub open spec fn lower_char(c: char) -> char {
    if 'A' <= c <= 'Z' {
        ((c as u32) + 32) as char
    } else {
        c
    }
}

pub open spec fn lower_text(s: Seq<char>) -> Seq<char> {
    s.map_values(|c: char| lower_char(c))
}

/// Whether `p` occurs in `s`.
pub open spec fn has_infix(s: Seq<char>, p: Seq<char>) -> bool {
    exists|i: int| 0 <= i && i + p.len() <= s.len() && #[trigger] s.subrange(i, i + p.len()) == p
}

/// Whether an option name speaks of a secret.
pub open spec fn names_secret(name: Seq<char>) -> bool {
    ||| has_infix(name, "token"@)
    ||| has_infix(name, "secret"@)
    ||| has_infix(name, "password"@)
    ||| has_infix(name, "passwd"@)
    ||| has_infix(name, "apikey"@)
    ||| has_infix(name, "api-key"@)
    ||| has_infix(name, "api_key"@)
    ||| has_infix(name, "credential"@)
}

/// The name part of an argument: what stands before its first `=`.
pub open spec fn option_name(a: Seq<char>) -> Seq<char> {
    match first_eq(a) {
        Some(k) => a.take(k),
        None => a,
    }
}

/// An option (an argument starting with `-`) whose name, in lower case,
/// speaks of a secret.
pub open spec fn is_secret_option(a: Seq<char>) -> bool {
    &&& a.len() > 0
    &&& a[0] == '-'
    &&& names_secret(lower_text(option_name(a)))
}

/// What is logged for an argument given the one before it: the value of a
/// secret option, whether it follows the option or stands after its `=`, is
/// replaced by `[REDACTED]`.
pub open spec fn redact_arg(prev: Option<Seq<char>>, a: Seq<char>) -> Seq<char> {
    if prev matches Some(p) && is_secret_option(p) && first_eq(p) is None {
        "[REDACTED]"@
    } else if is_secret_option(a) && first_eq(a) is Some {
        a.take(first_eq(a)->0 + 1) + "[REDACTED]"@
    } else {
        a
    }
}

/// The command line as it is logged.
pub open spec fn redacted(args: Seq<Seq<char>>) -> Seq<Seq<char>> {
    Seq::new(
        args.len(),
        |i: int|
            redact_arg(
                if i == 0 {
                    None
                } else {
                    Some(args[i - 1])
                },
                args[i],
            ),
    )
}

fn contains_chars(s: &Vec<char>, p: &Vec<char>) -> (r: bool)
    ensures
        r == has_infix(s@, p@),
{
    if p.len() > s.len() {
        return false;
    }
    let last = s.len() - p.len();
    let mut i: usize = 0;
    while i <= last
        invariant
            last == s.len() - p.len(),
            p.len() <= s.len(),
            forall|j: int| 0 <= j < i ==> #[trigger] s@.subrange(j, j + p.len()) != p@,
        decreases last + 1 - i,
    {
        let mut k: usize = 0;
        while k < p.len() && s[i + k] == p[k]
            invariant
                k <= p.len(),
                i <= last,
                last == s.len() - p.len(),
                forall|t: int| 0 <= t < k ==> s@[i + t] == p@[t],
            decreases p.len() - k,
        {
            k = k + 1;
        }
        if k == p.len() {
            assert(s@.subrange(i as int, i + p.len()) =~= p@);
            return true;
        }
        assert(s@.subrange(i as int, i + p.len())[k as int] != p@[k as int]);
        i = i + 1;
    }
    false
}

fn lower_chars(s: &Vec<char>, n: usize) -> (r: Vec<char>)
    requires
        n <= s.len(),
    ensures
        r@ == lower_text(s@.take(n as int)),
{
    let mut r: Vec<char> = Vec::new();
    let mut i: usize = 0;
    while i < n
        invariant
            i <= n,
            n <= s.len(),
            r@ == lower_text(s@.take(i as int)),
        decreases n - i,
    {
        let c = s[i];
        let l = if 'A' <= c && c <= 'Z' {
            ((c as u32) + 32) as u8 as char
        } else {
            c
        };
        assert(l == lower_char(c)) by {
            if 'A' <= c && c <= 'Z' {
                assert((((c as u32) + 32) as u8 as char) == (((c as u32) + 32) as char));
            }
        }
        r.push(l);
        i = i + 1;
        assert(r@ =~= lower_text(s@.take(i as int)));
    }
    r
}

fn names_secret_exec(name: &Vec<char>) -> (r: bool)
    ensures
        r == names_secret(name@),
{
    contains_chars(name, &chars_of("token")) || contains_chars(name, &chars_of("secret"))
        || contains_chars(name, &chars_of("password")) || contains_chars(name, &chars_of("passwd"))
        || contains_chars(name, &chars_of("apikey")) || contains_chars(name, &chars_of("api-key"))
        || contains_chars(name, &chars_of("api_key")) || contains_chars(
        name,
        &chars_of("credential"),
    )
}

/// The position of the first `=` of an argument.
fn eq_position(cs: &Vec<char>) -> (r: Option<usize>)
    ensures
        match r {
            Some(k) => first_eq(cs@) == Some(k as int) && k < cs.len(),
            None => first_eq(cs@) is None,
        },
{
    proof {
        lemma_first_eq(cs@);
    }
    let mut i: usize = 0;
    while i < cs.len()
        invariant
            i <= cs.len(),
            forall|j: int| 0 <= j < i ==> cs@[j] != '=',
        decreases cs.len() - i,
    {
        if cs[i] == '=' {
            proof {
                lemma_first_eq(cs@);
            }
            return Some(i);
        }
        i = i + 1;
    }
    proof {
        lemma_first_eq(cs@);
    }
    None
}

/// Whether an argument is an option whose name speaks of a secret, with the
/// position of its first `=`.
fn secret_option(cs: &Vec<char>) -> (r: (bool, Option<usize>))
    ensures
        r.0 == is_secret_option(cs@),
        match r.1 {
            Some(k) => first_eq(cs@) == Some(k as int) && k < cs.len(),
            None => first_eq(cs@) is None,
        },
{
    let eq = eq_position(cs);
    if cs.len() == 0 || cs[0] != '-' {
        return (false, eq);
    }
    let n = match eq {
        Some(k) => k,
        None => cs.len(),
    };
    let name = lower_chars(cs, n);
    assert(cs@.take(cs.len() as int) =~= cs@);
    (names_secret_exec(&name), eq)
}

/// The command line with the value of every secret option replaced by
/// `[REDACTED]`, as it goes into logs.
pub fn redact_args(args: &[String]) -> (r: Vec<String>)
    ensures
        texts_of(r@) == redacted(texts_of(args@)),
{
    let ghost a = texts_of(args@);
    let mut r: Vec<String> = Vec::new();
    let mut prev_hides_next = false;
    let mut i: usize = 0;
    while i < args.len()
        invariant
            i <= args.len(),
            a == texts_of(args@),
            r.len() == i,
            forall|j: int| 0 <= j < i ==> #[trigger] r@[j]@ == redacted(a)[j],
            i > 0 ==> prev_hides_next == (is_secret_option(a[i - 1]) && first_eq(a[i - 1]) is None),
            i == 0 ==> !prev_hides_next,
        decreases args.len() - i,
    {
        let cs = chars_of(args[i].as_str());
        let (secret, eq) = secret_option(&cs);
        let out = if prev_hides_next {
            String::from_str("[REDACTED]")
        } else {
            match eq {
                Some(k) => {
                    if secret {
                        let mut head: Vec<char> = Vec::new();
                        let mut t: usize = 0;
                        while t <= k
                            invariant
                                t <= k + 1,
                                k < cs.len(),
                                head@ == cs@.take(t as int),
                            decreases k + 1 - t,
                        {
                            head.push(cs[t]);
                            t = t + 1;
                            assert(head@ =~= cs@.take(t as int));
                        }
                        let mut o = string_of(&head);
                        push_str(&mut o, "[REDACTED]");
                        o
                    } else {
                        args[i].clone()
                    }
                },
                None => args[i].clone(),
            }
        };
        prev_hides_next = secret && eq.is_none();
        r.push(out);
        i = i + 1;
    }
    assert(texts_of(r@) =~= redacted(a));
    r
}


/// Redaction keeps the number of arguments; the argument after a secret
/// option without `=` becomes `[REDACTED]`; a secret option with `=` keeps
/// its name and `=` and has `[REDACTED]` as value; every other argument
/// stays as it was.
pub proof fn lemma_redaction_meaning(args: Seq<Seq<char>>)
    ensures
        redacted(args).len() == args.len(),
        forall|i: int|
            1 <= i < args.len() && is_secret_option(args[i - 1]) && first_eq(args[i - 1]) is None
                ==> #[trigger] redacted(args)[i] == "[REDACTED]"@,
        forall|i: int|
            0 <= i < args.len() && !(i >= 1 && is_secret_option(args[i - 1]) && first_eq(args[i - 1]) is None)
                && is_secret_option(args[i]) && first_eq(args[i]) is Some
                ==> #[trigger] redacted(args)[i] == args[i].take(first_eq(args[i])->0 + 1) + "[REDACTED]"@,
        forall|i: int|
            0 <= i < args.len() && !(i >= 1 && is_secret_option(args[i - 1]) && first_eq(args[i - 1]) is None)
                && !(is_secret_option(args[i]) && first_eq(args[i]) is Some)
                ==> #[trigger] redacted(args)[i] == args[i],
{
}

} // verus!
