//! Regular expressions.
use vstd::prelude::*;

verus! {

/// Whether a character has a meaning of its own in regular expressions.
pub open spec fn is_meta(c: char) -> bool {
    ||| c == '\\' || c == '.' || c == '+' || c == '*' || c == '?' || c == '(' || c == ')'
    ||| c == '|' || c == '[' || c == ']' || c == '{' || c == '}' || c == '^' || c == '$'
    ||| c == '#' || c == '&' || c == '-' || c == '~'
}

/// A text with a backslash before each character that has a meaning of its own in regular
/// expressions.
pub open spec fn regex_escaped(text: Seq<char>) -> Seq<char>
    decreases text.len(),
{
    if text.len() == 0 {
        Seq::empty()
    } else if is_meta(text.last()) {
        regex_escaped(text.drop_last()).push('\\').push(text.last())
    } else {
        regex_escaped(text.drop_last()).push(text.last())
    }
}

/// `regex::escape`: puts a backslash before each meta character, and keeps all others.
pub assume_specification[ regex::escape ](plain: &str) -> (r: String)
    ensures
        r@ == regex_escaped(plain@),
;

/// Whether a regular expression matches somewhere in a text, or what is wrong with the
/// expression.
pub uninterp spec fn regex_match(pattern: Seq<char>, text: Seq<char>) -> Result<bool, Seq<char>>;

/// What a search ended in.
pub open spec fn match_view(r: Result<bool, String>) -> Result<bool, Seq<char>> {
    match r {
        Ok(b) => Ok(b),
        Err(e) => Err(e@),
    }
}

/// `regex::Regex::new` and `regex::Regex::is_match` with the default options: a function of
/// the expression and the text.
#[verifier::external_body]
pub(crate) fn search(pattern: &str, text: &str) -> (r: Result<bool, String>)
    ensures
        match_view(r) == regex_match(pattern@, text@),
{
    match regex::Regex::new(pattern) {
        Ok(re) => Ok(re.is_match(text)),
        Err(e) => Err(e.to_string()),
    }
}

/// The matches of a regular expression in a text, from left to right, each with the texts of
/// its groups, the whole match first; or what is wrong with the expression.
pub uninterp spec fn regex_captures(pattern: Seq<char>, text: Seq<char>) -> Result<
    Seq<Seq<Option<Seq<char>>>>,
    Seq<char>,
>;

/// `regex::Regex::new` and `regex::Regex::captures_iter` with the default options: a function
/// of the expression and the text.
#[verifier::external_body]
pub(crate) fn capture_all(pattern: &str, text: &str) -> (r: Result<Vec<Vec<Option<String>>>, String>)
    ensures
        crate::data::result_view(r) == regex_captures(pattern@, text@),
{
    let owned = |m: Option<regex::Match>| m.map(|g| g.as_str().to_string());
    match regex::Regex::new(pattern) {
        Ok(re) => Ok(re.captures_iter(text).map(|c| c.iter().map(owned).collect()).collect()),
        Err(e) => Err(e.to_string()),
    }
}

/// The text of a group of a match, which is empty where the group took no part in it.
pub open spec fn group(captures: Seq<Option<Seq<char>>>, i: int) -> Seq<char> {
    if 0 <= i < captures.len() {
        match captures[i] {
            Some(s) => s,
            None => Seq::empty(),
        }
    } else {
        Seq::empty()
    }
}

pub fn get_group(captures: &Vec<Option<String>>, i: usize) -> (r: String)
    ensures
        r@ == group(captures.deep_view(), i as int),
{
    if i < captures.len() {
        assert(captures.deep_view()[i as int] == captures@[i as int].deep_view());
        match &captures[i] {
            Some(s) => s.clone(),
            None => String::new(),
        }
    } else {
        String::new()
    }
}

/// The texts of a group in all matches.
pub open spec fn group_of_all(matches: Seq<Seq<Option<Seq<char>>>>, i: int) -> Seq<Seq<char>> {
    matches.map_values(|c: Seq<Option<Seq<char>>>| group(c, i))
}

pub fn get_group_of_all(matches: &Vec<Vec<Option<String>>>, i: usize) -> (r: Vec<String>)
    ensures
        r.deep_view() == group_of_all(matches.deep_view(), i as int),
{
    let mut out: Vec<String> = Vec::new();
    let ghost all = group_of_all(matches.deep_view(), i as int);
    let mut k: usize = 0;
    while k < matches.len()
        invariant
            k <= matches@.len(),
            all == group_of_all(matches.deep_view(), i as int),
            out@.len() == k,
            forall|j: int| 0 <= j < k ==> (#[trigger] out@[j])@ == all[j],
        decreases matches@.len() - k,
    {
        assert(matches.deep_view()[k as int] == matches@[k as int].deep_view());
        out.push(get_group(&matches[k], i));
        k += 1;
    }
    assert(out.deep_view() =~= all);
    out
}

} // verus!
