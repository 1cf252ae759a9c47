use crate::codec::decode::{at, read_hex4, skip_space};
use crate::codec::grammar::{
    digits_end, skip_digits, skip_escape, skip_exponent, skip_fraction, skip_items, skip_number,
    skip_pairs, skip_string, skip_string_body, skip_value, skip_word,
};
use crate::text::digit_value;
use vstd::prelude::*;

verus! {

/// Passes over an escape in a string whose content is not read.
fn pass_escape(chars: &Vec<char>, i: usize) -> (r: Option<usize>)
    requires
        i <= chars.len(),
    ensures
        match skip_escape(chars@, i as int) {
            Some(next) => r == Some(next as usize) && i < next <= chars.len(),
            None => r is None,
        },
{
    if i >= chars.len() {
        return None;
    }
    let c = chars[i];
    if c == '"' || c == '\\' || c == '/' || c == 'b' || c == 'f' || c == 'n' || c == 'r' || c
        == 't' {
        Some(i + 1)
    } else if c == 'u' {
        match read_hex4(chars, i + 1) {
            Some(_) => Some(i + 5),
            None => None,
        }
    } else {
        None
    }
}

/// Passes over a string.
fn pass_string(chars: &Vec<char>, i: usize) -> (r: Option<usize>)
    requires
        i <= chars.len(),
    ensures
        match skip_string(chars@, i as int) {
            Some(next) => r == Some(next as usize) && i < next <= chars.len(),
            None => r is None,
        },
{
    if !at(chars, i, '"') {
        return None;
    }
    let ghost s = chars@;
    let mut j: usize = i + 1;
    loop
        invariant
            i < j <= chars.len(),
            s == chars@,
            skip_string(s, i as int) == skip_string_body(s, j as int),
        decreases chars.len() - j,
    {
        if j >= chars.len() {
            return None;
        }
        let c = chars[j];
        if c == '"' {
            return Some(j + 1);
        } else if c == '\\' {
            match pass_escape(chars, j + 1) {
                Some(next) => {
                    j = next;
                },
                None => {
                    return None;
                },
            }
        } else if (c as u32) < 0x20 {
            return None;
        } else {
            j += 1;
        }
    }
}

/// Passes over the digits that must stand at place `i`.
fn pass_digits(chars: &Vec<char>, i: usize) -> (r: Option<usize>)
    requires
        i <= chars.len(),
    ensures
        match skip_digits(chars@, i as int) {
            Some(next) => r == Some(next as usize) && i < next <= chars.len(),
            None => r is None,
        },
{
    if i >= chars.len() || digit_value(chars[i]).is_none() {
        return None;
    }
    let mut j: usize = i + 1;
    while j < chars.len() && digit_value(chars[j]).is_some()
        invariant
            i < j <= chars.len(),
            digits_end(chars@, i as int) == digits_end(chars@, j as int),
        decreases chars.len() - j,
    {
        j += 1;
    }
    Some(j)
}

/// Passes over the exponent of a number, if there is one.
fn pass_exponent(chars: &Vec<char>, i: usize) -> (r: Option<usize>)
    requires
        i <= chars.len(),
    ensures
        match skip_exponent(chars@, i as int) {
            Some(next) => r == Some(next as usize) && i <= next <= chars.len(),
            None => r is None,
        },
{
    if at(chars, i, 'e') || at(chars, i, 'E') {
        if at(chars, i + 1, '+') || at(chars, i + 1, '-') {
            pass_digits(chars, i + 2)
        } else {
            pass_digits(chars, i + 1)
        }
    } else {
        Some(i)
    }
}

/// Passes over the fraction and the exponent of a number, if there are any.
fn pass_fraction(chars: &Vec<char>, i: usize) -> (r: Option<usize>)
    requires
        i <= chars.len(),
    ensures
        match skip_fraction(chars@, i as int) {
            Some(next) => r == Some(next as usize) && i <= next <= chars.len(),
            None => r is None,
        },
{
    if at(chars, i, '.') {
        match pass_digits(chars, i + 1) {
            Some(end) => pass_exponent(chars, end),
            None => None,
        }
    } else {
        pass_exponent(chars, i)
    }
}

/// Passes over a number of any form.
fn pass_number(chars: &Vec<char>, i: usize) -> (r: Option<usize>)
    requires
        i <= chars.len(),
    ensures
        match skip_number(chars@, i as int) {
            Some(next) => r == Some(next as usize) && i < next <= chars.len(),
            None => r is None,
        },
{
    let first = if at(chars, i, '-') {
        i + 1
    } else {
        i
    };
    if at(chars, first, '0') {
        pass_fraction(chars, first + 1)
    } else {
        match pass_digits(chars, first) {
            Some(end) => pass_fraction(chars, end),
            None => None,
        }
    }
}

/// Passes over `true`.
fn pass_true(chars: &Vec<char>, i: usize) -> (r: Option<usize>)
    requires
        i <= chars.len(),
    ensures
        match skip_word(chars@, i as int, seq!['t', 'r', 'u', 'e']) {
            Some(next) => r == Some(next as usize) && i < next <= chars.len(),
            None => r is None,
        },
{
    let ghost word = seq!['t', 'r', 'u', 'e'];
    if chars.len() - i < 4 {
        return None;
    }
    let ghost part = chars@.subrange(i as int, i + 4);
    assert(part[0] == chars@[i as int] && part[1] == chars@[i + 1] && part[2] == chars@[i + 2]
        && part[3] == chars@[i + 3]);
    assert(word[0] == 't' && word[1] == 'r' && word[2] == 'u' && word[3] == 'e');
    if chars[i] == 't' && chars[i + 1] == 'r' && chars[i + 2] == 'u' && chars[i + 3] == 'e' {
        assert(part =~= word);
        Some(i + 4)
    } else {
        None
    }
}

/// Passes over `false`.
fn pass_false(chars: &Vec<char>, i: usize) -> (r: Option<usize>)
    requires
        i <= chars.len(),
    ensures
        match skip_word(chars@, i as int, seq!['f', 'a', 'l', 's', 'e']) {
            Some(next) => r == Some(next as usize) && i < next <= chars.len(),
            None => r is None,
        },
{
    let ghost word = seq!['f', 'a', 'l', 's', 'e'];
    if chars.len() - i < 5 {
        return None;
    }
    let ghost part = chars@.subrange(i as int, i + 5);
    assert(part[0] == chars@[i as int] && part[1] == chars@[i + 1] && part[2] == chars@[i + 2]
        && part[3] == chars@[i + 3] && part[4] == chars@[i + 4]);
    assert(word[0] == 'f' && word[1] == 'a' && word[2] == 'l' && word[3] == 's' && word[4]
        == 'e');
    if chars[i] == 'f' && chars[i + 1] == 'a' && chars[i + 2] == 'l' && chars[i + 3] == 's'
        && chars[i + 4] == 'e' {
        assert(part =~= word);
        Some(i + 5)
    } else {
        None
    }
}

/// Passes over `null`.
fn pass_null(chars: &Vec<char>, i: usize) -> (r: Option<usize>)
    requires
        i <= chars.len(),
    ensures
        match skip_word(chars@, i as int, seq!['n', 'u', 'l', 'l']) {
            Some(next) => r == Some(next as usize) && i < next <= chars.len(),
            None => r is None,
        },
{
    let ghost word = seq!['n', 'u', 'l', 'l'];
    if chars.len() - i < 4 {
        return None;
    }
    let ghost part = chars@.subrange(i as int, i + 4);
    assert(part[0] == chars@[i as int] && part[1] == chars@[i + 1] && part[2] == chars@[i + 2]
        && part[3] == chars@[i + 3]);
    assert(word[0] == 'n' && word[1] == 'u' && word[2] == 'l' && word[3] == 'l');
    if chars[i] == 'n' && chars[i + 1] == 'u' && chars[i + 2] == 'l' && chars[i + 3] == 'l' {
        assert(part =~= word);
        Some(i + 4)
    } else {
        None
    }
}

/// Passes over a value of any kind, with arrays and objects nested `depth` deep at most.
pub(crate) fn pass_value(chars: &Vec<char>, i: usize, depth: u32) -> (r: Option<usize>)
    requires
        i <= chars.len(),
    ensures
        match skip_value(chars@, i as int, depth as nat) {
            Some(next) => r == Some(next as usize) && i < next <= chars.len(),
            None => r is None,
        },
    decreases depth, chars.len() - i, 0nat,
{
    if i >= chars.len() {
        return None;
    }
    let c = chars[i];
    if c == '"' {
        pass_string(chars, i)
    } else if c == '-' || digit_value(c).is_some() {
        pass_number(chars, i)
    } else if c == 't' {
        pass_true(chars, i)
    } else if c == 'f' {
        pass_false(chars, i)
    } else if c == 'n' {
        pass_null(chars, i)
    } else if c == '[' && depth > 0 {
        let first = skip_space(chars, i + 1);
        if at(chars, first, ']') {
            Some(first + 1)
        } else {
            pass_items(chars, i + 1, depth - 1)
        }
    } else if c == '{' && depth > 0 {
        let first = skip_space(chars, i + 1);
        if at(chars, first, '}') {
            Some(first + 1)
        } else {
            pass_pairs(chars, i + 1, depth - 1)
        }
    } else {
        None
    }
}

/// Passes over the items of an array up to the bracket that closes it.
fn pass_items(chars: &Vec<char>, i: usize, depth: u32) -> (r: Option<usize>)
    requires
        i <= chars.len(),
    ensures
        match skip_items(chars@, i as int, depth as nat) {
            Some(next) => r == Some(next as usize) && i < next <= chars.len(),
            None => r is None,
        },
    decreases depth, chars.len() - i, 1nat,
{
    let ghost s = chars@;
    let mut pos: usize = i;
    loop
        invariant
            i <= pos <= chars.len(),
            s == chars@,
            skip_items(s, i as int, depth as nat) == skip_items(s, pos as int, depth as nat),
        decreases chars.len() - pos,
    {
        let start = skip_space(chars, pos);
        if start >= chars.len() {
            return None;
        }
        let after = match pass_value(chars, start, depth) {
            Some(after) => after,
            None => {
                return None;
            },
        };
        let mark = skip_space(chars, after);
        if at(chars, mark, ',') {
            pos = mark + 1;
        } else if at(chars, mark, ']') {
            return Some(mark + 1);
        } else {
            return None;
        }
    }
}

/// Passes over the fields of an object up to the brace that closes it.
fn pass_pairs(chars: &Vec<char>, i: usize, depth: u32) -> (r: Option<usize>)
    requires
        i <= chars.len(),
    ensures
        match skip_pairs(chars@, i as int, depth as nat) {
            Some(next) => r == Some(next as usize) && i < next <= chars.len(),
            None => r is None,
        },
    decreases depth, chars.len() - i, 1nat,
{
    let ghost s = chars@;
    let mut pos: usize = i;
    loop
        invariant
            i <= pos <= chars.len(),
            s == chars@,
            skip_pairs(s, i as int, depth as nat) == skip_pairs(s, pos as int, depth as nat),
        decreases chars.len() - pos,
    {
        let start = skip_space(chars, pos);
        let after_name = match pass_string(chars, start) {
            Some(after) => after,
            None => {
                return None;
            },
        };
        let colon = skip_space(chars, after_name);
        if !at(chars, colon, ':') {
            return None;
        }
        let value = skip_space(chars, colon + 1);
        if value >= chars.len() {
            return None;
        }
        let after = match pass_value(chars, value, depth) {
            Some(after) => after,
            None => {
                return None;
            },
        };
        let mark = skip_space(chars, after);
        if at(chars, mark, ',') {
            pos = mark + 1;
        } else if at(chars, mark, '}') {
            return Some(mark + 1);
        } else {
            return None;
        }
    }
}

} // verus!
