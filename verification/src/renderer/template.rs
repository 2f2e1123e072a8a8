//! Plain templates: text in which names between double braces stand for
//! numbers.
//!
//! A plain template holds nothing of a template language but tags of the
//! form `{{NAME}}`, each for a name of its table.  [`filled`] is the text
//! that it stands for: the template with each tag replaced by the number
//! of its name, in decimal digits.

use vstd::prelude::*;
use vstd::std_specs::iter::IteratorSpec;

verus! {

/// Whether `c` can stand in a name: a capital letter, a digit or an
/// underscore.
pub open spec fn is_name_char(c: char) -> bool {
    ('A' <= c && c <= 'Z') || ('0' <= c && c <= '9') || c == '_'
}

/// Whether `name` is made of capital letters, digits and underscores, and
/// starts with a letter.
pub open spec fn is_plain_name(name: Seq<char>) -> bool {
    &&& name.len() > 0
    &&& 'A' <= name[0] && name[0] <= 'Z'
    &&& forall|i: int| 0 <= i < name.len() ==> is_name_char(#[trigger] name[i])
}

/// Whether every name of `names` is plain.
pub open spec fn plain_names(names: Seq<Seq<char>>) -> bool {
    forall|k: int| 0 <= k < names.len() ==> is_plain_name(#[trigger] names[k])
}

/// The names of a list as mathematical values.
pub open spec fn names_view(names: Seq<Vec<char>>) -> Seq<Seq<char>> {
    names.map_values(|name: Vec<char>| name@)
}

/// Whether two opening braces stand at place `i` of `template`.
pub open spec fn opens_at(template: Seq<char>, i: int) -> bool {
    0 <= i && i + 1 < template.len() && template[i] == '{' && template[i + 1] == '{'
}

/// Whether the tag of `name` stands at place `i` of `template`: two
/// opening braces, the name, two closing braces.
pub open spec fn tag_at(template: Seq<char>, i: int, name: Seq<char>) -> bool {
    &&& opens_at(template, i)
    &&& i + 4 + name.len() <= template.len()
    &&& template.subrange(i + 2, i + 2 + name.len()) == name
    &&& template[i + 2 + name.len()] == '}'
    &&& template[i + 3 + name.len()] == '}'
}

/// The first name from place `from` of `names` on whose tag stands at
/// place `i` of `template`.
pub open spec fn named_at(template: Seq<char>, i: int, names: Seq<Seq<char>>, from: int) -> Option<int>
    decreases names.len() - from,
{
    if from < 0 || from >= names.len() {
        None
    } else if tag_at(template, i, names[from]) {
        Some(from)
    } else {
        named_at(template, i, names, from + 1)
    }
}

/// Whether `template` is plain from place `i` on: wherever two opening
/// braces stand, the tag of one of `names` stands, and no backslash
/// stands before a tag.
pub open spec fn is_plain(template: Seq<char>, names: Seq<Seq<char>>, i: int) -> bool
    decreases template.len() - i,
{
    if i < 0 || i >= template.len() {
        true
    } else if opens_at(template, i) {
        match named_at(template, i, names, 0) {
            Some(k) => if i + 4 + names[k].len() <= template.len() {
                is_plain(template, names, i + 4 + names[k].len())
            } else {
                false
            },
            None => false,
        }
    } else {
        !(template[i] == '\\' && opens_at(template, i + 1)) && is_plain(template, names, i + 1)
    }
}

/// The digit for `d`.
pub open spec fn digit_char(d: nat) -> char {
    ((48 + d) as u8) as char
}

/// The number `n` in decimal digits.
pub open spec fn decimal(n: nat) -> Seq<char>
    decreases n,
{
    if n < 10 {
        seq![digit_char(n)]
    } else {
        decimal(n / 10).push(digit_char(n % 10))
    }
}

/// The text that a plain template stands for from place `i` on: each tag
/// gives way to the number of its name, and all else stays.
pub open spec fn filled(template: Seq<char>, names: Seq<Seq<char>>, values: Seq<u32>, i: int) -> Seq<
    char,
>
    decreases template.len() - i,
{
    if i < 0 || i >= template.len() {
        seq![]
    } else if opens_at(template, i) {
        match named_at(template, i, names, 0) {
            Some(k) => if i + 4 + names[k].len() <= template.len() {
                decimal(values[k] as nat) + filled(template, names, values, i + 4 + names[k].len())
            } else {
                seq![]
            },
            None => seq![],
        }
    } else {
        seq![template[i]] + filled(template, names, values, i + 1)
    }
}

/// The tag that is found at a place is the tag of one of the names.
pub proof fn lemma_named_at(template: Seq<char>, i: int, names: Seq<Seq<char>>, from: int)
    requires
        0 <= from,
    ensures
        named_at(template, i, names, from) matches Some(k) ==> from <= k < names.len() && tag_at(
            template,
            i,
            names[k],
        ),
    decreases names.len() - from,
{
    if from < names.len() && !tag_at(template, i, names[from]) {
        lemma_named_at(template, i, names, from + 1);
    }
}

/// The characters of `s`.
pub fn to_chars(s: &str) -> (v: Vec<char>)
    ensures
        v@ == s@,
{
    broadcast use vstd::string::group_string_axioms;

    let ghost all = s@;
    let mut chars = s.chars();
    let mut v: Vec<char> = Vec::new();
    assert(all.skip(0) =~= all);
    loop
        invariant
            all == s@,
            v@.len() <= all.len(),
            chars.remaining() == all.skip(v@.len() as int),
            chars.decrease() is Some,
            v@ == all.take(v@.len() as int),
        ensures
            v@ == all,
        decreases all.len() - v@.len(),
    {
        let ghost at = v@.len() as int;
        let c = match chars.next() {
            Some(c) => c,
            None => {
                assert(all.take(all.len() as int) =~= all);
                break ;
            },
        };
        v.push(c);
        proof {
            assert(all.skip(at)[0] == all[at]);
            assert(all.skip(at).drop_first() =~= all.skip(at + 1));
            assert(v@ =~= all.take(at + 1));
        }
    }
    v
}

/// The number `n` in decimal digits.
pub fn decimal_digits(n: u32) -> (digits: Vec<char>)
    ensures
        digits@ == decimal(n as nat),
    decreases n,
{
    if n < 10 {
        let mut digits: Vec<char> = Vec::new();
        digits.push((48u8 + n as u8) as char);
        assert(digits@ =~= decimal(n as nat));
        digits
    } else {
        let mut digits = decimal_digits(n / 10);
        digits.push((48u8 + (n % 10) as u8) as char);
        digits
    }
}

/// Whether the tag of `name` stands at place `i` of `template`.
pub fn is_tag(template: &Vec<char>, i: usize, name: &Vec<char>) -> (b: bool)
    requires
        i < template@.len(),
    ensures
        b == tag_at(template@, i as int, name@),
{
    let n = template.len();
    let m = name.len();
    if n - i < 4 || m > n - i - 4 {
        return false;
    }
    if template[i] != '{' || template[i + 1] != '{' {
        return false;
    }
    let mut k: usize = 0;
    while k < m
        invariant
            k <= m,
            m == name@.len(),
            n == template@.len(),
            i + 4 + m <= n,
            forall|j: int| 0 <= j < k ==> template@[i + 2 + j] == name@[j],
        decreases m - k,
    {
        if template[i + 2 + k] != name[k] {
            assert(template@.subrange(i + 2, i + 2 + m)[k as int] != name@[k as int]);
            return false;
        }
        k += 1;
    }
    assert(template@.subrange(i + 2, i + 2 + m) =~= name@);
    template[i + 2 + m] == '}' && template[i + 3 + m] == '}'
}

/// The first of `names` whose tag stands at place `i` of `template`.
pub fn tag_index(template: &Vec<char>, i: usize, names: &Vec<Vec<char>>) -> (r: Option<usize>)
    requires
        i < template@.len(),
    ensures
        r matches Some(k) ==> named_at(template@, i as int, names_view(names@), 0) == Some(k as int)
            && k < names@.len() && tag_at(template@, i as int, names@[k as int]@),
        r is None ==> named_at(template@, i as int, names_view(names@), 0) is None,
{
    let ghost listed = names_view(names@);
    let mut k: usize = 0;
    while k < names.len()
        invariant
            k <= names@.len(),
            listed == names_view(names@),
            i < template@.len(),
            named_at(template@, i as int, listed, 0) == named_at(template@, i as int, listed, k as int),
        decreases names@.len() - k,
    {
        assert(listed[k as int] == names@[k as int]@);
        if is_tag(template, i, &names[k]) {
            return Some(k);
        }
        k += 1;
    }
    None
}

/// Whether `template` is plain.
pub fn scan_plain(template: &Vec<char>, names: &Vec<Vec<char>>) -> (b: bool)
    ensures
        b == is_plain(template@, names_view(names@), 0),
{
    let ghost listed = names_view(names@);
    let n = template.len();
    let mut i: usize = 0;
    while i < n
        invariant
            i <= n,
            n == template@.len(),
            listed == names_view(names@),
            is_plain(template@, listed, 0) == is_plain(template@, listed, i as int),
        decreases n - i,
    {
        if template[i] == '{' && i + 1 < n && template[i + 1] == '{' {
            match tag_index(template, i, names) {
                Some(k) => {
                    assert(listed[k as int] == names@[k as int]@);
                    i = i + 4 + names[k].len();
                },
                None => {
                    return false;
                },
            }
        } else {
            if template[i] == '\\' && n - i > 2 && template[i + 1] == '{' && template[i + 2] == '{' {
                return false;
            }
            i += 1;
        }
    }
    true
}

/// Whether `text` is what the plain `template` stands for.
pub fn is_filling(
    template: &Vec<char>,
    names: &Vec<Vec<char>>,
    values: &Vec<u32>,
    text: &Vec<char>,
) -> (b: bool)
    requires
        is_plain(template@, names_view(names@), 0),
        names@.len() == values@.len(),
    ensures
        b == (text@ == filled(template@, names_view(names@), values@, 0)),
{
    let ghost listed = names_view(names@);
    let ghost whole = filled(template@, listed, values@, 0);
    let n = template.len();
    let length = text.len();
    let mut i: usize = 0;
    let mut j: usize = 0;
    assert(text@.take(0) + whole =~= whole);
    while i < n
        invariant
            i <= n,
            length == text@.len(),
            j <= text@.len(),
            n == template@.len(),
            listed == names_view(names@),
            names@.len() == values@.len(),
            whole == filled(template@, listed, values@, 0),
            is_plain(template@, listed, i as int),
            whole == text@.take(j as int) + filled(template@, listed, values@, i as int),
        decreases n - i,
    {
        let ghost rest = filled(template@, listed, values@, i as int);
        if template[i] == '{' && i + 1 < n && template[i + 1] == '{' {
            let k = match tag_index(template, i, names) {
                Some(k) => k,
                None => {
                    return false;
                },
            };
            assert(listed[k as int] == names@[k as int]@);
            let digits = decimal_digits(values[k]);
            let ghost after = filled(template@, listed, values@, i + 4 + names@[k as int]@.len());
            assert(rest == digits@ + after);
            let d = digits.len();
            let mut m: usize = 0;
            while m < d
                invariant
                    m <= d,
                    d == digits@.len(),
                    length == text@.len(),
                    j <= text@.len(),
                    whole == filled(template@, names_view(names@), values@, 0),
                    whole == text@.take(j as int) + (digits@ + after),
                    j + m <= text@.len(),
                    forall|a: int| 0 <= a < m ==> text@[j + a] == digits@[a],
                decreases d - m,
            {
                if m >= length - j || text[j + m] != digits[m] {
                    proof {
                        if text@ == whole {
                            assert(whole.len() == j + (digits@ + after).len());
                            assert(whole[j + m] == (digits@ + after)[m as int]);
                        }
                    }
                    return false;
                }
                m += 1;
            }
            proof {
                assert(text@.take(j + d) =~= text@.take(j as int) + digits@);
                assert(text@.take(j as int) + (digits@ + after) =~= text@.take(j + d) + after);
            }
            j = j + d;
            i = i + 4 + names[k].len();
        } else {
            assert(rest == seq![template@[i as int]] + filled(template@, listed, values@, i + 1));
            if j >= length || text[j] != template[i] {
                proof {
                    if text@ == whole {
                        assert(whole.len() == j + rest.len());
                        assert(whole[j as int] == rest[0]);
                    }
                }
                return false;
            }
            proof {
                assert(text@.take(j + 1) =~= text@.take(j as int) + seq![template@[i as int]]);
                assert(text@.take(j as int) + rest =~= text@.take(j + 1) + filled(
                    template@,
                    listed,
                    values@,
                    i + 1,
                ));
            }
            j += 1;
            i += 1;
        }
    }
    proof {
        assert(whole =~= text@.take(j as int));
        if j == text@.len() {
            assert(text@.take(j as int) =~= text@);
        }
    }
    j == text.len()
}

} // verus!
