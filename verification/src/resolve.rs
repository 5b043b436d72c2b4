//! The value resolver: rewrite one word before it is dispatched.
//!
//! `$name` becomes the variable's value, `$name++`/`$name--` increments or
//! decrements the variable and substitutes the new value, and a leading
//! `~` becomes the home directory.  Any other word passes unchanged.

use vstd::prelude::*;

use crate::errors::{GResolveError, ResolveError};
use crate::numbers::{big_add, check_int_str, dec, digit_val, int_val, is_int_str, is_uint_str,
    uint_val};
use crate::vars::{map_get, VarStore};

verus! {

/// The view of an optional home directory.
pub open spec fn opt_view(h: &Option<String>) -> Option<Seq<char>> {
    match h {
        Option::Some(s) => Option::Some(s@),
        Option::None => Option::None,
    }
}

/// What resolving one word does: the rewritten word, and the binding it
/// writes back for the increment/decrement forms.
pub open spec fn spec_resolve_word(
    m: Map<Seq<char>, Seq<char>>,
    home: Option<Seq<char>>,
    w: Seq<char>,
) -> Result<(Seq<char>, Option<(Seq<char>, Seq<char>)>), GResolveError> {
    if w.len() > 0 && w[0] == '$' {
        if w.len() >= 3 && ((w[w.len() - 2] == '+' && w[w.len() - 1] == '+') || (w[w.len() - 2]
            == '-' && w[w.len() - 1] == '-')) {
            let name = w.subrange(1, w.len() - 2);
            let up = w[w.len() - 1] == '+';
            match map_get(m, name) {
                Option::None => Result::Err(GResolveError::UndefinedVariable(name)),
                Option::Some(v) => if !is_int_str(v) {
                    Result::Err(GResolveError::NotANumber(name))
                } else {
                    let fresh = dec(int_val(v) + (if up {
                        1int
                    } else {
                        -1int
                    }));
                    Result::Ok((fresh, Option::Some((name, fresh))))
                },
            }
        } else {
            let name = w.skip(1);
            match map_get(m, name) {
                Option::None => Result::Err(GResolveError::UndefinedVariable(name)),
                Option::Some(v) => if v.len() == 0 {
                    Result::Err(GResolveError::UndefinedVariable(name))
                } else {
                    Result::Ok((v, Option::None))
                },
            }
        }
    } else if w.len() > 0 && w[0] == '~' {
        match home {
            Option::None => Result::Err(GResolveError::NoHomeDirectory),
            Option::Some(h) => Result::Ok((h + w.skip(1), Option::None)),
        }
    } else {
        Result::Ok((w, Option::None))
    }
}

/// Resolve one word against the store and home directory, writing the new
/// value back for the increment and decrement forms.
pub fn resolve_word(store: &mut VarStore, home: &Option<String>, w: &String) -> (r: Result<
    String,
    ResolveError,
>)
    ensures
        match spec_resolve_word(old(store).map_view(), opt_view(home), w@) {
            Result::Err(ge) => r is Err && r->Err_0@ == ge && *final(store) == *old(store),
            Result::Ok(p) => {
                &&& r is Ok
                &&& r->Ok_0@ == p.0
                &&& match p.1 {
                    Option::None => *final(store) == *old(store),
                    Option::Some(b) => final(store).map_view() == old(
                        store).map_view().insert(b.0, b.1),
                }
            },
        },
{
    let n = w.as_str().unicode_len();
    if n == 0 {
        return Ok(w.clone());
    }
    let c0 = w.as_str().get_char(0);
    if c0 == '$' {
        let mut suffix = false;
        let mut up = false;
        if n >= 3 {
            let a = w.as_str().get_char(n - 2);
            let b = w.as_str().get_char(n - 1);
            if a == '+' && b == '+' {
                suffix = true;
                up = true;
            }
            if a == '-' && b == '-' {
                suffix = true;
            }
        }
        if suffix {
            let name = String::from_str(w.as_str().substring_char(1, n - 2));
            proof {
                assert(name@ =~= w@.subrange(1, w@.len() - 2));
            }
            let v = match store.get(name.as_str()) {
                Option::None => {
                    return Err(ResolveError::UndefinedVariable(name));
                },
                Option::Some(v) => v,
            };
            if !check_int_str(v.as_str()) {
                return Err(ResolveError::NotANumber(name));
            }
            let step: &str = if up {
                "1"
            } else {
                "-1"
            };
            proof {
                reveal_strlit("1");
                reveal_strlit("-1");
                assert("1"@.len() == 1);
                assert("1"@[0] == '1');
                assert("1"@.drop_last() =~= Seq::<char>::empty());
                assert(uint_val(Seq::<char>::empty()) == 0);
                assert(digit_val('1') == 1);
                assert(is_uint_str("1"@));
                assert(int_val("1"@) == 1);
                assert("-1"@.len() == 2);
                assert("-1"@[0] == '-');
                assert("-1"@.skip(1) =~= "1"@);
                assert(is_int_str("-1"@));
                assert(int_val("-1"@) == -1);
            }
            let fresh = big_add(v.as_str(), step);
            store.set(name, fresh.clone());
            Ok(fresh)
        } else {
            let name = String::from_str(w.as_str().substring_char(1, n));
            proof {
                assert(name@ =~= w@.skip(1));
            }
            match store.get(name.as_str()) {
                Option::None => Err(ResolveError::UndefinedVariable(name)),
                Option::Some(v) => {
                    if v.as_str().unicode_len() == 0 {
                        Err(ResolveError::UndefinedVariable(name))
                    } else {
                        Ok(v)
                    }
                },
            }
        }
    } else if c0 == '~' {
        match home {
            Option::None => Err(ResolveError::NoHomeDirectory),
            Option::Some(h) => {
                let r = h.clone().concat(w.as_str().substring_char(1, n));
                proof {
                    assert(r@ =~= h@ + w@.skip(1));
                }
                Ok(r)
            },
        }
    } else {
        Ok(w.clone())
    }
}

} // verus!
