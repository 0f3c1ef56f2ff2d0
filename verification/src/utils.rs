//! Random strings, file extensions, and the candidates from which unique
//! names are drawn.
use vstd::prelude::*;
use rand::rngs::ThreadRng;
use rand::Rng;
use rand::distributions::Alphanumeric;
use crate::text::{trim, is_ws, chars_of, string_from, trim_chars, blank, lemma_trim_start_blank, lemma_trim_end_blank, trim_start, trim_end};
use crate::regex_ops::{drop_leading_dot, leading_dot_pattern, regex_replace_all};

verus! {

#[verifier::external_type_specification]
#[verifier::external_body]
pub struct ExThreadRng(ThreadRng);

/// Calls `rand::thread_rng`. Nothing is claimed of the generator.
#[verifier::external_body]
fn thread_rng() -> ThreadRng {
    rand::thread_rng()
}

/// Calls `Rng::gen_range(low, high)`, which panics when `low >= high`
/// (left out by `requires`). Claimed, as its documentation says: the value
/// lies in `[low, high)`. Which value comes out rests on chance.
#[verifier::external_body]
fn gen_range(rng: &mut ThreadRng, low: usize, high: usize) -> (r: usize)
    requires
        low < high,
    ensures
        low <= r < high,
{
    rng.gen_range(low, high)
}

/// Calls `Rng::sample_iter(&Alphanumeric)` and collects the first `length`
/// samples. Claimed, as the distribution's source shows: `length`
/// characters, each an ASCII letter or digit. Which ones rests on chance.
#[verifier::external_body]
fn sample_alphanumeric(rng: ThreadRng, length: usize) -> (r: String)
    ensures
        r@.len() == length,
        forall|i: int| 0 <= i < r@.len() ==> is_alphanumeric(#[trigger] r@[i]),
{
    rng.sample_iter(&Alphanumeric).take(length).collect()
}

/// An ASCII letter or digit.
pub open spec fn is_alphanumeric(c: char) -> bool {
    ('0' <= c && c <= '9') || ('a' <= c && c <= 'z') || ('A' <= c && c <= 'Z')
}

/// An ASCII digit.
pub open spec fn is_digit(c: char) -> bool {
    '0' <= c && c <= '9'
}

/// A lower-case ASCII letter.
pub open spec fn is_lower(c: char) -> bool {
    'a' <= c && c <= 'z'
}

/// A lower-case hexadecimal digit.
pub open spec fn is_hex(c: char) -> bool {
    is_digit(c) || ('a' <= c && c <= 'f')
}

/// `c` is one of the bytes of `charset`, read as a character.
pub open spec fn in_charset(c: char, charset: Seq<u8>) -> bool {
    exists|j: int| 0 <= j < charset.len() && c == (charset[j] as char)
}

/// A string of `length` characters, each drawn at random from `charset`.
pub fn random_varchar(charset: &[u8], length: usize) -> (r: String)
    requires
        length > 0 ==> charset@.len() > 0,
    ensures
        r@.len() == length,
        forall|i: int| 0 <= i < r@.len() ==> in_charset(#[trigger] r@[i], charset@),
{
    let mut rng = thread_rng();
    let mut out: Vec<char> = Vec::new();
    let mut k: usize = 0;
    while k < length
        invariant
            k <= length,
            length > 0 ==> charset@.len() > 0,
            out@.len() == k,
            forall|i: int| 0 <= i < out@.len() ==> in_charset(#[trigger] out@[i], charset@),
        decreases length - k,
    {
        let idx = gen_range(&mut rng, 0, charset.len());
        let c = charset[idx] as char;
        out.push(c);
        proof {
            assert(out@[k as int] == (charset@[idx as int] as char));
            assert(in_charset(out@[k as int], charset@));
        }
        k = k + 1;
    }
    let r = string_from(&out);
    r
}

/// `length` random decimal digits.
pub fn random_digits(length: usize) -> (r: String)
    ensures
        r@.len() == length,
        forall|i: int| 0 <= i < r@.len() ==> is_digit(#[trigger] r@[i]),
{
    let charset: [u8; 10] = [48u8, 49u8, 50u8, 51u8, 52u8, 53u8, 54u8, 55u8, 56u8, 57u8];
    let r = random_varchar(&charset, length);
    proof {
        assert forall|i: int| 0 <= i < r@.len() implies is_digit(#[trigger] r@[i]) by {
            let j = choose|j: int| 0 <= j < charset@.len() && r@[i] == (charset@[j] as char);
            assert(in_charset(r@[i], charset@));
            assert(48 <= charset@[j] <= 57);
        }
    }
    r
}

/// `length` random ASCII letters and digits.
pub fn random_characters(length: usize) -> (r: String)
    ensures
        r@.len() == length,
        forall|i: int| 0 <= i < r@.len() ==> is_alphanumeric(#[trigger] r@[i]),
{
    sample_alphanumeric(thread_rng(), length)
}

/// `length` random lower-case ASCII letters.
pub fn random_alphabets(length: usize) -> (r: String)
    ensures
        r@.len() == length,
        forall|i: int| 0 <= i < r@.len() ==> is_lower(#[trigger] r@[i]),
{
    let charset: [u8; 26] = [
        97u8, 98u8, 99u8, 100u8, 101u8, 102u8, 103u8, 104u8, 105u8, 106u8, 107u8, 108u8, 109u8,
        110u8, 111u8, 112u8, 113u8, 114u8, 115u8, 116u8, 117u8, 118u8, 119u8, 120u8, 121u8, 122u8,
    ];
    let r = random_varchar(&charset, length);
    proof {
        assert forall|i: int| 0 <= i < r@.len() implies is_lower(#[trigger] r@[i]) by {
            let j = choose|j: int| 0 <= j < charset@.len() && r@[i] == (charset@[j] as char);
            assert(in_charset(r@[i], charset@));
            assert(97 <= charset@[j] <= 122);
        }
    }
    r
}

/// `length` random lower-case hexadecimal digits.
pub fn random_hex(length: usize) -> (r: String)
    ensures
        r@.len() == length,
        forall|i: int| 0 <= i < r@.len() ==> is_hex(#[trigger] r@[i]),
{
    let charset: [u8; 16] = [
        48u8, 49u8, 50u8, 51u8, 52u8, 53u8, 54u8, 55u8, 56u8, 57u8, 97u8, 98u8, 99u8, 100u8,
        101u8, 102u8,
    ];
    let r = random_varchar(&charset, length);
    proof {
        assert forall|i: int| 0 <= i < r@.len() implies is_hex(#[trigger] r@[i]) by {
            let j = choose|j: int| 0 <= j < charset@.len() && r@[i] == (charset@[j] as char);
            assert(in_charset(r@[i], charset@));
            assert(48 <= charset@[j] <= 57 || 97 <= charset@[j] <= 102);
        }
    }
    r
}

/// The characters of an optional string slice.
pub open spec fn opt_str(o: Option<&str>) -> Option<Seq<char>> {
    match o {
        Some(s) => Some(s@),
        None => None,
    }
}

/// The extension as a file name ends with it: a dot, then the trimmed
/// extension without one leading dot; nothing for a missing or blank one.
pub open spec fn dot_ext(o: Option<Seq<char>>) -> Seq<char> {
    match o {
        Some(e) => if trim(e).len() > 0 {
            seq!['.'].add(drop_leading_dot(trim(e)))
        } else {
            Seq::empty()
        },
        None => Seq::empty(),
    }
}

/// The extension as a file name ends with it, starting with one dot;
/// empty where there is no extension or it is blank.
pub fn dot_file_extension(file_extension_opt: Option<&str>) -> (r: String)
    ensures
        r@ == dot_ext(opt_str(file_extension_opt)),
{
    match file_extension_opt {
        Some(file_extension) => {
            let cs = chars_of(file_extension);
            if !blank(&cs) {
                let trimmed = string_from(&trim_chars(&cs));
                let pattern = "^\\.";
                let empty = "";
                proof {
                    reveal_strlit("^\\.");
                    reveal_strlit("");
                    assert(pattern@ =~= leading_dot_pattern());
                }
                let stripped = regex_replace_all(pattern, trimmed.as_str(), empty);
                let mut out = String::new();
                string_push_dot(&mut out);
                match stripped {
                    Some(s) => {
                        out.append(s.as_str());
                    },
                    None => {},
                }
                proof {
                    assert(out@ =~= seq!['.'].add(drop_leading_dot(trim(file_extension@))));
                }
                out
            } else {
                String::new()
            }
        },
        None => String::new(),
    }
}

fn string_push_dot(s: &mut String)
    ensures
        final(s)@ == old(s)@.push('.'),
{
    crate::text::string_push(s, '.');
}

/// The kinds of random names that [`unique_fs_candidate`] draws.
pub enum UniqueFromFsContext {
    Digits,
    Characters,
    Hex,
}

/// The characters a name of the given kind is made of.
pub open spec fn kind_char(context: UniqueFromFsContext, c: char) -> bool {
    match context {
        UniqueFromFsContext::Digits => is_digit(c),
        UniqueFromFsContext::Characters => is_alphanumeric(c),
        UniqueFromFsContext::Hex => is_hex(c),
    }
}

/// Whether `c` is a character of the kind `context` names.
fn is_kind_char(context: &UniqueFromFsContext, c: char) -> (r: bool)
    ensures
        r == kind_char(*context, c),
{
    let digit = '0' <= c && c <= '9';
    match context {
        UniqueFromFsContext::Digits => digit,
        UniqueFromFsContext::Characters => digit || ('a' <= c && c <= 'z') || ('A' <= c && c <= 'Z'),
        UniqueFromFsContext::Hex => digit || ('a' <= c && c <= 'f'),
    }
}

/// `t` is made of characters of the kind `context` names.
pub open spec fn all_kind(context: UniqueFromFsContext, t: Seq<char>) -> bool {
    forall|i: int| 0 <= i < t.len() ==> kind_char(context, #[trigger] t[i])
}

/// `taken` answered `answer` for a path whose text is `path`.
pub open spec fn answered<F: Fn(&str) -> bool>(taken: F, path: Seq<char>, answer: bool) -> bool {
    exists|p: &str| p@ == path && #[trigger] taken.ensures((p,), answer)
}

/// The first text `t` of `k` characters of the kind `context`, in the
/// order of their character codes, for which `taken` answers `false` about
/// `prefix + t + suffix`; `None` where it answers `true` for every one.
fn first_free<F: Fn(&str) -> bool>(
    prefix: Vec<char>,
    k: usize,
    suffix: &Vec<char>,
    context: &UniqueFromFsContext,
    taken: &F,
) -> (r: Option<Vec<char>>)
    requires
        forall|p: &str| #[trigger] taken.requires((p,)),
    ensures
        r matches Some(t) ==> t@.len() == k && all_kind(*context, t@) && answered(
            *taken,
            prefix@ + t@ + suffix@,
            false,
        ),
        r is None ==> forall|t: Seq<char>|
            t.len() == k && #[trigger] all_kind(*context, t) ==> answered(*taken, prefix@ + t + suffix@, true),
    decreases k,
{
    if k == 0 {
        let mut name = prefix.clone();
        crate::text::extend(&mut name, suffix);
        let text = string_from(&name);
        let p = text.as_str();
        let t = taken(p);
        proof {
            assert(prefix@ + Seq::<char>::empty() =~= prefix@);
            assert(answered(*taken, prefix@ + Seq::<char>::empty() + suffix@, t));
            assert forall|t2: Seq<char>| t2.len() == k && #[trigger] all_kind(*context, t2) implies t2 =~= Seq::<char>::empty() by {}
        }
        if !t {
            Some(Vec::new())
        } else {
            None
        }
    } else {
        let mut b: u8 = 48;
        while b < 123
            invariant
                0 < k,
                48 <= b <= 123,
                forall|p: &str| #[trigger] taken.requires((p,)),
                forall|c: char, t: Seq<char>|
                    48 <= (c as int) < b && kind_char(*context, c) && t.len() == k - 1 && #[trigger] all_kind(
                        *context,
                        t,
                    ) ==> #[trigger] answered(*taken, prefix@.push(c) + t + suffix@, true),
            decreases 123 - b,
        {
            let c = b as char;
            if is_kind_char(context, c) {
                let mut p2 = prefix.clone();
                p2.push(c);
                match first_free(p2, k - 1, suffix, context, taken) {
                    Some(t) => {
                        let mut r: Vec<char> = Vec::new();
                        r.push(c);
                        crate::text::extend(&mut r, &t);
                        proof {
                            assert(prefix@.push(c) + t@ =~= prefix@ + r@);
                            assert forall|i: int| 0 <= i < r@.len() implies kind_char(*context, #[trigger] r@[i]) by {
                                if i > 0 {
                                    assert(r@[i] == t@[i - 1]);
                                }
                            }
                        }
                        return Some(r);
                    },
                    None => {},
                }
            }
            b = b + 1;
        }
        proof {
            assert forall|t: Seq<char>|
                t.len() == k && #[trigger] all_kind(*context, t) implies answered(*taken, prefix@ + t + suffix@, true) by {
                let c = t[0];
                let rest = t.drop_first();
                assert(kind_char(*context, c));
                assert(48 <= (c as int) < 123);
                assert(all_kind(*context, rest)) by {
                    assert forall|i: int| 0 <= i < rest.len() implies kind_char(*context, #[trigger] rest[i]) by {
                        assert(rest[i] == t[i + 1]);
                    }
                }
                assert(prefix@.push(c) + rest =~= prefix@ + t);
                assert(answered(*taken, prefix@.push(c) + rest + suffix@, true));
            }
        }
        None
    }
}

/// One candidate for a file name that is not taken yet: `length` random
/// characters of the kind `context` names, then the dotted extension.
pub fn unique_fs_candidate(
    length: usize,
    file_extension_opt: Option<&str>,
    context: &UniqueFromFsContext,
) -> (r: String)
    ensures
        r@.len() == length + dot_ext(opt_str(file_extension_opt)).len(),
        forall|i: int| 0 <= i < length ==> kind_char(*context, #[trigger] r@[i]),
        r@.skip(length as int) == dot_ext(opt_str(file_extension_opt)),
{
    let mut name = match context {
        UniqueFromFsContext::Digits => random_digits(length),
        UniqueFromFsContext::Characters => random_characters(length),
        UniqueFromFsContext::Hex => random_hex(length),
    };
    let ghost body = name@;
    let ext = dot_file_extension(file_extension_opt);
    name.append(ext.as_str());
    proof {
        assert(name@.skip(length as int) =~= ext@);
        assert forall|i: int| 0 <= i < length implies kind_char(*context, #[trigger] name@[i]) by {
            assert(name@[i] == body[i]);
        }
    }
    name
}

/// `vec` holds a string that could have been drawn: one of `length`
/// characters of the kind `context` names.
pub open spec fn holds_drawable(vec: Seq<String>, length: nat, context: Seq<char>) -> bool {
    exists|i: int| 0 <= i < vec.len() && vec[i]@.len() == length && #[trigger] vec_kind(context, vec[i]@)
}

/// One candidate for a string that `vec` does not hold: `length` random
/// digits where `context` is `digits`, random letters and digits otherwise.
/// It is handed back where `vec` does not hold it, and `None` comes back
/// where it does, which can only be where `vec` holds such a string.
pub fn unique_vec_candidate(vec: &Vec<String>, length: usize, context: &str) -> (r: Option<String>)
    ensures
        r is None ==> holds_drawable(vec@, length as nat, context@),
        r matches Some(s) ==> {
            &&& s@.len() == length
            &&& forall|i: int| 0 <= i < vec@.len() ==> vec@[i]@ != s@
            &&& context@ == seq!['d', 'i', 'g', 'i', 't', 's'] ==> forall|i: int|
                0 <= i < s@.len() ==> is_digit(#[trigger] s@[i])
            &&& context@ != seq!['d', 'i', 'g', 'i', 't', 's'] ==> forall|i: int|
                0 <= i < s@.len() ==> is_alphanumeric(#[trigger] s@[i])
        },
{
    let digits = "digits".to_owned();
    let ctx = context.to_owned();
    proof {
        reveal_strlit("digits");
        assert(digits@ =~= seq!['d', 'i', 'g', 'i', 't', 's']);
    }
    let is_digits = ctx == digits;
    proof {
        assert(is_digits == (context@ == seq!['d', 'i', 'g', 'i', 't', 's']));
    }
    let content = if is_digits {
        random_digits(length)
    } else {
        random_characters(length)
    };
    if contains_string(vec, &content) {
        proof {
            let i = choose|i: int| 0 <= i < vec@.len() && vec@[i]@ == content@;
            assert(vec_kind(context@, vec@[i]@));
        }
        None
    } else {
        proof {
            assert(forall|i: int| 0 <= i < vec@.len() ==> vec@[i]@ != content@);
        }
        Some(content)
    }
}

/// The kind of string `unique_from_vec` draws for `context`: decimal
/// digits where it is `digits`, letters and digits otherwise.
pub open spec fn vec_kind(context: Seq<char>, s: Seq<char>) -> bool {
    if context == seq!['d', 'i', 'g', 'i', 't', 's'] {
        forall|i: int| 0 <= i < s.len() ==> is_digit(#[trigger] s[i])
    } else {
        forall|i: int| 0 <= i < s.len() ==> is_alphanumeric(#[trigger] s[i])
    }
}

/// Every string of `length` characters of the kind `context` names is in `vec`.
pub open spec fn all_in_vec(vec: Seq<String>, length: nat, context: Seq<char>) -> bool {
    forall|t: Seq<char>|
        t.len() == length && #[trigger] vec_kind(context, t) ==> exists|i: int| 0 <= i < vec.len() && vec[i]@ == t
}

/// A string of `length` random characters of the kind `context` names
/// that `vec` does not hold, drawn again and again until one is free.
/// Every loop here must end, so after `usize::MAX` draws the strings of
/// that length and kind are tried in order instead; `None` says that
/// `vec` holds every one of them.
pub fn unique_from_vec(vec: Vec<String>, length: usize, context: &str) -> (r: Option<String>)
    ensures
        r is None ==> all_in_vec(vec@, length as nat, context@),
        r matches Some(s) ==> {
            &&& s@.len() == length
            &&& forall|i: int| 0 <= i < vec@.len() ==> vec@[i]@ != s@
            &&& vec_kind(context@, s@)
        },
{
    let mut attempts: usize = 0;
    while attempts < usize::MAX
        decreases usize::MAX - attempts,
    {
        match unique_vec_candidate(&vec, length, context) {
            Some(s) => {
                return Some(s);
            },
            None => {},
        }
        attempts = attempts + 1;
    }
    let digits = "digits".to_owned();
    let ctx_text = context.to_owned();
    proof {
        reveal_strlit("digits");
        assert(digits@ =~= seq!['d', 'i', 'g', 'i', 't', 's']);
    }
    let kind = if ctx_text == digits {
        UniqueFromFsContext::Digits
    } else {
        UniqueFromFsContext::Characters
    };
    proof {
        assert forall|t: Seq<char>| #[trigger] vec_kind(context@, t) == all_kind(kind, t) by {}
    }
    let held = &vec;
    let taken = |p: &str| -> (b: bool)
        ensures
            b == exists|i: int| 0 <= i < held@.len() && held@[i]@ == p@,
        {
            let text = p.to_owned();
            contains_string(held, &text)
        };
    let none: Vec<char> = Vec::new();
    match first_free(Vec::new(), length, &none, &kind, &taken) {
        Some(t) => {
            proof {
                assert(Seq::<char>::empty() + t@ + none@ =~= t@);
            }
            Some(string_from(&t))
        },
        None => {
            proof {
                assert forall|t: Seq<char>| t.len() == length && #[trigger] vec_kind(context@, t) implies exists|i: int|
                    0 <= i < vec@.len() && vec@[i]@ == t by {
                    assert(all_kind(kind, t));
                    assert(Seq::<char>::empty() + t + none@ =~= t);
                    assert(answered(taken, Seq::<char>::empty() + t + none@, true));
                }
            }
            None
        },
    }
}

/// `length` random digits that `vec` does not hold; `None` only where `vec`
/// holds every string of `length` digits.
pub fn unique_digits_from_vec(vec: Vec<String>, length: usize) -> (r: Option<String>)
    ensures
        r is None ==> forall|t: Seq<char>|
            t.len() == length && #[trigger] all_kind(UniqueFromFsContext::Digits, t) ==> exists|i: int|
                0 <= i < vec@.len() && vec@[i]@ == t,
        r matches Some(s) ==> {
            &&& s@.len() == length
            &&& forall|i: int| 0 <= i < vec@.len() ==> vec@[i]@ != s@
            &&& forall|i: int| 0 <= i < s@.len() ==> is_digit(#[trigger] s@[i])
        },
{
    let context = "digits";
    proof {
        reveal_strlit("digits");
        assert(context@ =~= seq!['d', 'i', 'g', 'i', 't', 's']);
    }
    let r = unique_from_vec(vec, length, context);
    proof {
        if r is None {
            assert forall|t: Seq<char>|
                t.len() == length && #[trigger] all_kind(UniqueFromFsContext::Digits, t) implies exists|i: int|
                0 <= i < vec@.len() && vec@[i]@ == t by {
                assert(vec_kind(context@, t));
            }
        }
    }
    r
}

/// `length` random letters and digits that `vec` does not hold; `None`
/// only where `vec` holds every string of `length` letters and digits.
pub fn unique_characters_from_vec(vec: Vec<String>, length: usize) -> (r: Option<String>)
    ensures
        r is None ==> forall|t: Seq<char>|
            t.len() == length && #[trigger] all_kind(UniqueFromFsContext::Characters, t) ==> exists|i: int|
                0 <= i < vec@.len() && vec@[i]@ == t,
        r matches Some(s) ==> {
            &&& s@.len() == length
            &&& forall|i: int| 0 <= i < vec@.len() ==> vec@[i]@ != s@
            &&& forall|i: int| 0 <= i < s@.len() ==> is_alphanumeric(#[trigger] s@[i])
        },
{
    let context = "characters";
    proof {
        reveal_strlit("characters");
        assert("characters"@ != seq!['d', 'i', 'g', 'i', 't', 's']) by {
            assert("characters"@[0] != 'd');
        }
    }
    let r = unique_from_vec(vec, length, context);
    proof {
        if r is None {
            assert forall|t: Seq<char>|
                t.len() == length && #[trigger] all_kind(UniqueFromFsContext::Characters, t) implies exists|i: int|
                0 <= i < vec@.len() && vec@[i]@ == t by {
                assert(vec_kind(context@, t));
            }
        }
    }
    r
}

/// A name in `directory_path` is free: `directory_exists`, asked about
/// the path of the name in that directory, answered `false`.
pub open spec fn free_name<F: Fn(&str) -> bool>(
    directory_exists: F,
    directory_path: Seq<char>,
    name: Seq<char>,
) -> bool {
    exists|p: &str| p@ == directory_path + seq!['/'] + name && directory_exists.ensures((p,), false)
}

/// `s` is a name the search draws: `length` characters of the kind
/// `context` names, then the dotted extension.
pub open spec fn fs_name(
    length: usize,
    file_extension_opt: Option<&str>,
    context: UniqueFromFsContext,
    s: Seq<char>,
) -> bool {
    &&& s.len() == length + dot_ext(opt_str(file_extension_opt)).len()
    &&& forall|i: int| 0 <= i < length ==> kind_char(context, #[trigger] s[i])
    &&& s.skip(length as int) == dot_ext(opt_str(file_extension_opt))
}

/// `directory_exists` reported every name drawn as `fs_name` describes
/// taken: for the path of each in `directory_path` it answered `true`.
pub open spec fn all_names_taken<F: Fn(&str) -> bool>(
    directory_exists: F,
    directory_path: Seq<char>,
    length: usize,
    file_extension_opt: Option<&str>,
    context: UniqueFromFsContext,
) -> bool {
    forall|s: Seq<char>|
        #[trigger] fs_name(length, file_extension_opt, context, s) ==> answered(
            directory_exists,
            directory_path + seq!['/'] + s,
            true,
        )
}

/// A file name in `directory_path` that is not taken: `length` random
/// characters of the kind `context` names, then the dotted extension,
/// drawn again and again until `directory_exists` says that the path is
/// free. Every loop here must end, so after `usize::MAX` draws the names
/// are tried in order instead; `None` says that `directory_exists`
/// answered `true` for the path of every such name.
pub fn unique_from_fs<F: Fn(&str) -> bool>(
    directory_path: &str,
    length: usize,
    file_extension_opt: Option<&str>,
    context: UniqueFromFsContext,
    directory_exists: F,
) -> (r: Option<String>)
    requires
        forall|p: &str| #[trigger] directory_exists.requires((p,)),
    ensures
        r matches Some(s) ==> {
            &&& s@.len() == length + dot_ext(opt_str(file_extension_opt)).len()
            &&& forall|i: int| 0 <= i < length ==> kind_char(context, #[trigger] s@[i])
            &&& s@.skip(length as int) == dot_ext(opt_str(file_extension_opt))
            &&& free_name(directory_exists, directory_path@, s@)
        },
        r is None ==> all_names_taken(directory_exists, directory_path@, length, file_extension_opt, context),
{
    let mut attempts: usize = 0;
    while attempts < usize::MAX
        invariant
            forall|p: &str| #[trigger] directory_exists.requires((p,)),
        decreases usize::MAX - attempts,
    {
        let content = unique_fs_candidate(length, file_extension_opt, &context);
        let path = crate::config::App::path_in(directory_path, content.as_str());
        let path_str = path.as_str();
        let taken = directory_exists(path_str);
        if !taken {
            proof {
                assert(free_name(directory_exists, directory_path@, content@));
            }
            return Some(content);
        }
        attempts = attempts + 1;
    }
    let mut prefix = crate::text::chars_of(directory_path);
    prefix.push('/');
    let ghost pre = prefix@;
    let ext = dot_file_extension(file_extension_opt);
    let ext_chars = crate::text::chars_of(ext.as_str());
    match first_free(prefix, length, &ext_chars, &context, &directory_exists) {
        Some(t) => {
            let mut name = t.clone();
            crate::text::extend(&mut name, &ext_chars);
            let found = string_from(&name);
            proof {
                assert(pre + t@ + ext_chars@ =~= directory_path@ + seq!['/'] + found@);
                assert(found@.skip(length as int) =~= ext_chars@);
                assert forall|i: int| 0 <= i < length implies kind_char(context, #[trigger] found@[i]) by {
                    assert(found@[i] == t@[i]);
                }
            }
            Some(found)
        },
        None => {
            proof {
                assert forall|n: Seq<char>| #[trigger] fs_name(length, file_extension_opt, context, n) implies answered(
                    directory_exists,
                    directory_path@ + seq!['/'] + n,
                    true,
                ) by {
                    let t = n.take(length as int);
                    assert(all_kind(context, t)) by {
                        assert forall|i: int| 0 <= i < t.len() implies kind_char(context, #[trigger] t[i]) by {
                            assert(t[i] == n[i]);
                        }
                    }
                    assert(n =~= t + n.skip(length as int));
                    assert(pre + t + ext_chars@ =~= directory_path@ + seq!['/'] + n);
                }
            }
            None
        },
    }
}

/// A free file name of `length` random digits and the dotted extension.
pub fn unique_digits_from_fs<F: Fn(&str) -> bool>(
    directory_path: &str,
    length: usize,
    file_extension_opt: Option<&str>,
    directory_exists: F,
) -> (r: Option<String>)
    requires
        forall|p: &str| #[trigger] directory_exists.requires((p,)),
    ensures
        r matches Some(s) ==> {
            &&& s@.len() == length + dot_ext(opt_str(file_extension_opt)).len()
            &&& forall|i: int| 0 <= i < length ==> is_digit(#[trigger] s@[i])
            &&& s@.skip(length as int) == dot_ext(opt_str(file_extension_opt))
            &&& free_name(directory_exists, directory_path@, s@)
        },
        r is None ==> all_names_taken(
            directory_exists,
            directory_path@,
            length,
            file_extension_opt,
            UniqueFromFsContext::Digits,
        ),
{
    let r = unique_from_fs(directory_path, length, file_extension_opt, UniqueFromFsContext::Digits, directory_exists);
    proof {
        if r is Some {
            let s = r->0;
            assert forall|i: int| 0 <= i < length implies is_digit(#[trigger] s@[i]) by {
                assert(kind_char(UniqueFromFsContext::Digits, s@[i]));
            }
        }
    }
    r
}

/// A free file name of `length` random letters and digits and the dotted
/// extension.
pub fn unique_characters_from_fs<F: Fn(&str) -> bool>(
    directory_path: &str,
    length: usize,
    file_extension_opt: Option<&str>,
    directory_exists: F,
) -> (r: Option<String>)
    requires
        forall|p: &str| #[trigger] directory_exists.requires((p,)),
    ensures
        r matches Some(s) ==> {
            &&& s@.len() == length + dot_ext(opt_str(file_extension_opt)).len()
            &&& forall|i: int| 0 <= i < length ==> is_alphanumeric(#[trigger] s@[i])
            &&& s@.skip(length as int) == dot_ext(opt_str(file_extension_opt))
            &&& free_name(directory_exists, directory_path@, s@)
        },
        r is None ==> all_names_taken(
            directory_exists,
            directory_path@,
            length,
            file_extension_opt,
            UniqueFromFsContext::Characters,
        ),
{
    let r = unique_from_fs(
        directory_path,
        length,
        file_extension_opt,
        UniqueFromFsContext::Characters,
        directory_exists,
    );
    proof {
        if r is Some {
            let s = r->0;
            assert forall|i: int| 0 <= i < length implies is_alphanumeric(#[trigger] s@[i]) by {
                assert(kind_char(UniqueFromFsContext::Characters, s@[i]));
            }
        }
    }
    r
}

/// A free file name of `length` random hexadecimal digits and the dotted
/// extension.
pub fn unique_hex_from_fs<F: Fn(&str) -> bool>(
    directory_path: &str,
    length: usize,
    file_extension_opt: Option<&str>,
    directory_exists: F,
) -> (r: Option<String>)
    requires
        forall|p: &str| #[trigger] directory_exists.requires((p,)),
    ensures
        r matches Some(s) ==> {
            &&& s@.len() == length + dot_ext(opt_str(file_extension_opt)).len()
            &&& forall|i: int| 0 <= i < length ==> is_hex(#[trigger] s@[i])
            &&& s@.skip(length as int) == dot_ext(opt_str(file_extension_opt))
            &&& free_name(directory_exists, directory_path@, s@)
        },
        r is None ==> all_names_taken(
            directory_exists,
            directory_path@,
            length,
            file_extension_opt,
            UniqueFromFsContext::Hex,
        ),
{
    let r = unique_from_fs(directory_path, length, file_extension_opt, UniqueFromFsContext::Hex, directory_exists);
    proof {
        if r is Some {
            let s = r->0;
            assert forall|i: int| 0 <= i < length implies is_hex(#[trigger] s@[i]) by {
                assert(kind_char(UniqueFromFsContext::Hex, s@[i]));
            }
        }
    }
    r
}

/// Whether `vec` holds a string equal to `s`.
pub fn contains_string(vec: &Vec<String>, s: &String) -> (r: bool)
    ensures
        r == exists|i: int| 0 <= i < vec@.len() && vec@[i]@ == s@,
{
    let mut i: usize = 0;
    while i < vec.len()
        invariant
            i <= vec.len(),
            forall|j: int| 0 <= j < i ==> vec@[j]@ != s@,
        decreases vec.len() - i,
    {
        if vec[i] == *s {
            return true;
        }
        i = i + 1;
    }
    false
}

proof fn lemma_trim_of_trimmed_ends(s: Seq<char>)
    requires
        s.len() > 0,
        !is_ws(s[0]),
        !is_ws(s.last()),
    ensures
        trim(s) == s,
{
    assert(trim_start(s) == s);
    assert(trim_end(s) == s);
}

/// A dotted extension is kept as it is when it is given again as the
/// extension: `dot_file_extension` of its own non-empty result gives that
/// result back.
pub proof fn law_dot_file_extension_idempotent(e: Seq<char>)
    requires
        dot_ext(Some(e)).len() > 0,
    ensures
        dot_ext(Some(dot_ext(Some(e)))) == dot_ext(Some(e)),
{
    let t = trim(e);
    let d = drop_leading_dot(t);
    let r = dot_ext(Some(e));
    assert(r == seq!['.'].add(d));
    lemma_trim_start_blank(e);
    lemma_trim_end_blank(trim_start(e));
    assert(t.len() > 0);
    assert(!is_ws(t.last()));
    if d.len() > 0 {
        assert(d.last() == t.last());
    }
    assert(r.last() == if d.len() > 0 { d.last() } else { '.' });
    assert(r[0] == '.');
    lemma_trim_of_trimmed_ends(r);
    assert(drop_leading_dot(r) =~= d);
    assert(dot_ext(Some(r)) =~= seq!['.'].add(d));
}

} // verus!
