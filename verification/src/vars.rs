//! The environment-variable store and the variable lifecycle builtins.
//!
//! One store is shared by all commands of a pass: `set`/`get`/`rem` and the
//! increment/decrement operators all work on it, and the value resolver and
//! the conditional evaluator read it.  Its mathematical model is a map from
//! names to values (`map_view`).

use vstd::prelude::*;

use crate::numbers::{
    big_add, check_int_str, dec, digit_val, int_val, is_int_str, is_uint_str, neg_int_str,
    uint_val,
};
use crate::strutil::{is_ws, str_eq, str_trim_end, trim_end_ws};

verus! {

/// Lookup in an entry list: the most recently pushed binding wins.
pub open spec fn lookup(s: Seq<(String, String)>, k: Seq<char>) -> Option<Seq<char>>
    decreases s.len(),
{
    if s.len() == 0 {
        Option::None
    } else if s.last().0@ == k {
        Option::Some(s.last().1@)
    } else {
        lookup(s.drop_last(), k)
    }
}

/// Optional lookup in a name-to-value map.
pub open spec fn map_get(m: Map<Seq<char>, Seq<char>>, k: Seq<char>) -> Option<Seq<char>> {
    if m.contains_key(k) {
        Option::Some(m[k])
    } else {
        Option::None
    }
}

/// The variable store: a name-to-value map of strings.
pub struct VarStore {
    entries: Vec<(String, String)>,
}

impl VarStore {
    /// The store as a map from names to values.
    pub closed spec fn map_view(&self) -> Map<Seq<char>, Seq<char>> {
        Map::new(
            |k: Seq<char>| lookup(self.entries@, k) is Some,
            |k: Seq<char>| lookup(self.entries@, k)->Some_0,
        )
    }

    /// An empty store.
    pub fn new() -> (s: Self)
        ensures
            s.map_view() == Map::<Seq<char>, Seq<char>>::empty(),
    {
        let s = VarStore { entries: Vec::new() };
        proof {
            assert(s.map_view() =~= Map::<Seq<char>, Seq<char>>::empty());
        }
        s
    }

    /// Read one variable.
    pub fn get(&self, name: &str) -> (r: Option<String>)
        ensures
            match r {
                Option::Some(v) => map_get(self.map_view(), name@) == Option::Some(v@),
                Option::None => map_get(self.map_view(), name@) is None,
            },
    {
        let n = self.entries.len();
        let mut j: usize = n;
        proof {
            assert(self.entries@.take(n as int) =~= self.entries@);
        }
        while j > 0
            invariant
                0 <= j <= n,
                n == self.entries.len(),
                lookup(self.entries@, name@) == lookup(self.entries@.take(j as int), name@),
            decreases j,
        {
            j = j - 1;
            proof {
                assert(self.entries@.take(j + 1).last() == self.entries@[j as int]);
                assert(self.entries@.take(j + 1).drop_last() =~= self.entries@.take(j as int));
            }
            if str_eq(self.entries[j].0.as_str(), name) {
                return Some(self.entries[j].1.clone());
            }
        }
        None
    }

    /// Bind `name` to `value`, shadowing any earlier binding.
    pub fn set(&mut self, name: String, value: String)
        ensures
            final(self).map_view() == old(self).map_view().insert(name@, value@),
    {
        let ghost n = name@;
        let ghost v = value@;
        let ghost before = self.entries@;
        self.entries.push((name, value));
        proof {
            assert(self.entries@.last().0@ == n);
            assert(self.entries@.last().1@ == v);
            assert(self.entries@.drop_last() =~= before);
            assert forall|k: Seq<char>| true implies #[trigger] lookup(self.entries@, k) == (
                if k == n {
                    Option::Some(v)
                } else {
                    lookup(before, k)
                }
            ) by {}
            assert(self.map_view() =~= old(self).map_view().insert(n, v));
        }
    }

    /// The store's bindings in shadowing order: read back by `lookup`,
    /// they spell exactly the map.  The host hands them to spawned
    /// children, which in the original interpreter inherited the
    /// variables through the process environment.
    pub fn export(&self) -> (r: Vec<(String, String)>)
        ensures
            forall|k: Seq<char>| #[trigger] lookup(r@, k) == map_get(self.map_view(), k),
    {
        let n = self.entries.len();
        let mut out: Vec<(String, String)> = Vec::new();
        let mut i: usize = 0;
        while i < n
            invariant
                0 <= i <= n,
                n == self.entries.len(),
                out@.len() == i,
                forall|j: int|
                    0 <= j < i ==> (#[trigger] out@[j]).0@ == self.entries@[j].0@
                        && out@[j].1@ == self.entries@[j].1@,
            decreases n - i,
        {
            let pair = (self.entries[i].0.clone(), self.entries[i].1.clone());
            out.push(pair);
            i = i + 1;
        }
        proof {
            assert forall|k: Seq<char>| #[trigger] lookup(out@, k) == map_get(
                self.map_view(),
                k,
            ) by {
                lemma_lookup_congruent(out@.take(n as int), self.entries@.take(n as int), k);
                assert(out@.take(n as int) =~= out@);
                assert(self.entries@.take(n as int) =~= self.entries@);
            }
        }
        out
    }

    /// Drop every binding of `name`.
    pub fn remove(&mut self, name: &str)
        ensures
            final(self).map_view() == old(self).map_view().remove(name@),
    {
        let n = self.entries.len();
        let mut out: Vec<(String, String)> = Vec::new();
        let mut i: usize = 0;
        proof {
            assert(self.entries@.take(0) =~= Seq::<(String, String)>::empty());
        }
        while i < n
            invariant
                0 <= i <= n,
                n == self.entries.len(),
                self.entries@ == old(self).entries@,
                lookup(out@, name@) is None,
                forall|k: Seq<char>|
                    k != name@ ==> #[trigger] lookup(out@, k) == lookup(
                        self.entries@.take(i as int),
                        k,
                    ),
            decreases n - i,
        {
            proof {
                assert(self.entries@.take(i + 1).last() == self.entries@[i as int]);
                assert(self.entries@.take(i + 1).drop_last() =~= self.entries@.take(i as int));
            }
            let ghost out0 = out@;
            if !str_eq(self.entries[i].0.as_str(), name) {
                let pair = (self.entries[i].0.clone(), self.entries[i].1.clone());
                out.push(pair);
                proof {
                    assert(out@.drop_last() =~= out0);
                    assert(out@.last().0@ == self.entries@[i as int].0@);
                    assert(out@.last().1@ == self.entries@[i as int].1@);
                    assert forall|k: Seq<char>| k != name@ implies #[trigger] lookup(out@, k)
                        == lookup(self.entries@.take(i + 1), k) by {
                        assert(lookup(out0, k) == lookup(self.entries@.take(i as int), k));
                    }
                }
            } else {
                proof {
                    assert forall|k: Seq<char>| k != name@ implies #[trigger] lookup(out@, k)
                        == lookup(self.entries@.take(i + 1), k) by {
                        assert(lookup(out0, k) == lookup(self.entries@.take(i as int), k));
                        assert(self.entries@.take(i + 1).last().0@ == name@);
                    }
                }
            }
            i = i + 1;
        }
        proof {
            assert(self.entries@.take(n as int) =~= self.entries@);
        }
        self.entries = out;
        proof {
            assert(self.map_view() =~= old(self).map_view().remove(name@));
        }
    }
}

/// Two entry lists whose pairs spell the same names and values agree on
/// every lookup.
proof fn lemma_lookup_congruent(a: Seq<(String, String)>, b: Seq<(String, String)>, k: Seq<char>)
    requires
        a.len() == b.len(),
        forall|i: int|
            0 <= i < a.len() ==> (#[trigger] a[i]).0@ == b[i].0@ && a[i].1@ == b[i].1@,
    ensures
        lookup(a, k) == lookup(b, k),
    decreases a.len(),
{
    if a.len() > 0 {
        assert(a.last().0@ == b.last().0@ && a.last().1@ == b.last().1@);
        lemma_lookup_congruent(a.drop_last(), b.drop_last(), k);
    }
}

/// A variable name the `set`/`rem` builtins accept: letters, digits and
/// underscores only.
pub open spec fn is_plain_name(s: Seq<char>) -> bool {
    s.len() > 0 && forall|j: int|
        0 <= j < s.len() ==> {
            let u = #[trigger] s[j] as u32;
            (48 <= u && u <= 57) || (65 <= u && u <= 90) || (97 <= u && u <= 122) || u == 95
        }
}

/// Does `s` pass the variable-name check?
pub fn check_plain_name(s: &str) -> (r: bool)
    ensures
        r == is_plain_name(s@),
{
    let n = s.unicode_len();
    if n == 0 {
        return false;
    }
    let mut i: usize = 0;
    while i < n
        invariant
            0 <= i <= n,
            n == s@.len(),
            forall|j: int|
                0 <= j < i ==> {
                    let u = #[trigger] s@[j] as u32;
                    (48 <= u && u <= 57) || (65 <= u && u <= 90) || (97 <= u && u <= 122) || u
                        == 95
                },
        decreases n - i,
    {
        let u = s.get_char(i) as u32;
        if !((48 <= u && u <= 57) || (65 <= u && u <= 90) || (97 <= u && u <= 122) || u == 95) {
            return false;
        }
        i = i + 1;
    }
    true
}

/// The words from position `i` on, joined by single spaces, each word
/// followed by one space.
pub open spec fn join_from(ws: Seq<Seq<char>>, i: int) -> Seq<char>
    decreases ws.len() - i,
{
    if i < 0 || i >= ws.len() {
        Seq::empty()
    } else {
        ws[i] + seq![' '] + join_from(ws, i + 1)
    }
}

/// Position of the first `=` in `s`, or `s.len()` if there is none.
pub open spec fn first_eq(s: Seq<char>) -> nat
    decreases s.len(),
{
    if s.len() == 0 {
        0
    } else if s[0] == '=' {
        0
    } else {
        1 + first_eq(s.skip(1))
    }
}

/// A position with an `=` and none before it is `first_eq`.
proof fn lemma_first_eq_is(s: Seq<char>, m: int)
    requires
        0 <= m <= s.len(),
        m == s.len() || s[m] == '=',
        forall|j: int| 0 <= j < m ==> s[j] != '=',
    ensures
        first_eq(s) == m,
    decreases s.len(),
{
    if s.len() == 0 {
    } else if s[0] == '=' {
    } else {
        assert(m >= 1);
        assert(forall|j: int| 0 <= j < m - 1 ==> s.skip(1)[j] == s[j + 1]);
        if m - 1 < s.skip(1).len() {
            assert(s.skip(1)[m - 1] == s[m]);
        }
        lemma_first_eq_is(s.skip(1), m - 1);
    }
}

/// What a `set` word group binds: `set name=value` splits the second word
/// at its first `=`; `set name value...` joins the remaining words with
/// spaces and trims trailing whitespace.  `None` means the group is
/// malformed and nothing is bound.
pub open spec fn set_target(ws: Seq<Seq<char>>) -> Option<(Seq<char>, Seq<char>)> {
    if ws.len() < 2 {
        Option::None
    } else {
        let w1 = ws[1];
        let p = first_eq(w1) as int;
        if p < w1.len() {
            if ws.len() == 2 && 0 < p && p + 1 < w1.len() {
                Option::Some((w1.take(p), w1.skip(p + 1)))
            } else {
                Option::None
            }
        } else if is_plain_name(w1) {
            Option::Some((w1, trim_end_ws(join_from(ws, 2))))
        } else {
            Option::None
        }
    }
}

/// The error text `get` reports on a malformed group or an unset name.
pub open spec fn getenv_err_text(m: Map<Seq<char>, Seq<char>>, ws: Seq<Seq<char>>) -> Seq<
    char,
> {
    if ws.len() == 1 {
        "Give me a variable name to check!"@
    } else if ws.len() == 2 {
        "Variable \""@ + ws[1] + "\" is not set!"@
    } else {
        "Cannot check multiple variables simultaneously!"@
    }
}

/// Read one variable: the `get name` builtin.
pub fn getenv(store: &VarStore, buf: &Vec<String>) -> (r: Result<String, String>)
    ensures
        (r is Ok) <==> (buf.deep_view().len() == 2 && map_get(
            store.map_view(),
            buf.deep_view()[1],
        ) is Some),
        r is Ok ==> Option::Some(r->Ok_0@) == map_get(store.map_view(), buf.deep_view()[1]),
        r is Err ==> r->Err_0@ == getenv_err_text(store.map_view(), buf.deep_view()),
{
    if buf.len() == 1 {
        Err(String::from_str("Give me a variable name to check!"))
    } else if buf.len() == 2 {
        proof {
            assert(buf.deep_view()[1] == buf@[1]@);
        }
        match store.get(buf[1].as_str()) {
            Some(v) => Ok(v),
            None => {
                let e = String::from_str("Variable \"").concat(buf[1].as_str()).concat(
                    "\" is not set!",
                );
                Err(e)
            },
        }
    } else {
        Err(String::from_str("Cannot check multiple variables simultaneously!"))
    }
}

/// The error text `set` reports on a malformed group.
pub open spec fn setenv_err_text(ws: Seq<Seq<char>>) -> Seq<char> {
    if ws.len() < 2 {
        "Give me a variable name and it's contents to set!"@
    } else if (first_eq(ws[1]) as int) < ws[1].len() {
        "OPEATOR \"SETENV\" FAILED! Incorretly requested variable!"@
    } else {
        "Variable name contains invalid characters: "@ + ws[1] + "!"@
    }
}

/// Bind one variable: the `set` builtin.
pub fn setenv(store: &mut VarStore, buf: &Vec<String>) -> (r: Result<(), String>)
    ensures
        (r is Ok) <==> set_target(buf.deep_view()) is Some,
        r is Ok ==> final(store).map_view() == old(store).map_view().insert(
            set_target(buf.deep_view())->Some_0.0,
            set_target(buf.deep_view())->Some_0.1,
        ),
        r is Err ==> *final(store) == *old(store) && r->Err_0@ == setenv_err_text(
            buf.deep_view(),
        ),
{
    let ghost ws = buf.deep_view();
    if buf.len() < 2 {
        return Err(String::from_str("Give me a variable name and it's contents to set!"));
    }
    let w1: &String = &buf[1];
    proof {
        assert(ws[1] == w1@);
    }
    let n1 = w1.as_str().unicode_len();
    // find the first `=` in the second word
    let mut p: usize = 0;
    while p < n1 && w1.as_str().get_char(p) != '='
        invariant
            0 <= p <= n1,
            n1 == w1@.len(),
            forall|j: int| 0 <= j < p ==> w1@[j] != '=',
        decreases n1 - p,
    {
        p = p + 1;
    }
    proof {
        lemma_first_eq_is(w1@, p as int);
    }
    if p < n1 {
        // `set name=value`
        if buf.len() == 2 && 0 < p && p + 1 < n1 {
            let key = String::from_str(w1.as_str().substring_char(0, p));
            let value = String::from_str(w1.as_str().substring_char(p + 1, n1));
            proof {
                assert(key@ =~= w1@.take(p as int));
                assert(value@ =~= w1@.skip(p + 1));
            }
            store.set(key, value);
            Ok(())
        } else {
            Err(String::from_str("OPEATOR \"SETENV\" FAILED! Incorretly requested variable!"))
        }
    } else {
        // `set name value...`
        if !check_plain_name(w1.as_str()) {
            return Err(
                String::from_str("Variable name contains invalid characters: ").concat(
                    w1.as_str(),
                ).concat("!"),
            );
        }
        let mut value = String::new();
        let mut i: usize = 2;
        proof {
            assert(value@ + join_from(ws, 2) =~= join_from(ws, 2));
        }
        while i < buf.len()
            invariant
                2 <= i <= buf.len(),
                ws == buf.deep_view(),
                join_from(ws, 2) == value@ + join_from(ws, i as int),
            decreases buf.len() - i,
        {
            let ghost v0 = value@;
            proof {
                assert(ws[i as int] == buf@[i as int]@);
            }
            value.append(buf[i].as_str());
            value.append(" ");
            proof {
                reveal_strlit(" ");
                assert(" "@ =~= seq![' ']);
                assert(value@ + join_from(ws, i + 1) =~= v0 + ((ws[i as int] + seq![' '])
                    + join_from(ws, i + 1)));
            }
            i = i + 1;
        }
        proof {
            assert(join_from(ws, buf.len() as int) =~= Seq::<char>::empty());
            assert(value@ + Seq::<char>::empty() =~= value@);
        }
        let trimmed = str_trim_end(value.as_str());
        store.set(w1.clone(), trimmed);
        Ok(())
    }
}

/// The error text `rem` reports on a malformed group.
pub open spec fn remenv_err_text(ws: Seq<Seq<char>>) -> Seq<char> {
    if ws.len() < 2 {
        "Give me a variable name and it's contents to set!"@
    } else {
        "Variable name contains invalid characters: "@ + ws[1] + "!"@
    }
}

/// Remove one variable: the `rem name` builtin.
pub fn remenv(store: &mut VarStore, buf: &Vec<String>) -> (r: Result<(), String>)
    ensures
        (r is Ok) <==> (buf.deep_view().len() >= 2 && is_plain_name(buf.deep_view()[1])),
        r is Ok ==> final(store).map_view() == old(store).map_view().remove(
            buf.deep_view()[1],
        ),
        r is Err ==> *final(store) == *old(store) && r->Err_0@ == remenv_err_text(
            buf.deep_view(),
        ),
{
    if buf.len() < 2 {
        return Err(String::from_str("Give me a variable name and it's contents to set!"));
    }
    proof {
        assert(buf.deep_view()[1] == buf@[1]@);
    }
    if !check_plain_name(buf[1].as_str()) {
        return Err(
            String::from_str("Variable name contains invalid characters: ").concat(
                buf[1].as_str(),
            ).concat("!"),
        );
    }
    store.remove(buf[1].as_str());
    Ok(())
}

/// When the `++ name [n]`/`-- name [n]` builtin succeeds.
pub open spec fn chenv_ok(m: Map<Seq<char>, Seq<char>>, ws: Seq<Seq<char>>) -> bool {
    &&& (ws.len() == 2 || ws.len() == 3)
    &&& (ws.len() == 3 ==> is_int_str(ws[2]))
    &&& map_get(m, ws[1]) is Some
    &&& is_int_str(map_get(m, ws[1])->Some_0)
}

/// The step the builtin applies: the third word, or one.
pub open spec fn chenv_amount(ws: Seq<Seq<char>>) -> int {
    if ws.len() == 3 {
        int_val(ws[2])
    } else {
        1
    }
}

/// The value the builtin binds on success: the old value moved by the
/// step, spelled canonically.
pub open spec fn chenv_value(
    m: Map<Seq<char>, Seq<char>>,
    ws: Seq<Seq<char>>,
    increment: bool,
) -> Seq<char> {
    dec(
        int_val(map_get(m, ws[1])->Some_0) + (if increment {
            chenv_amount(ws)
        } else {
            -chenv_amount(ws)
        }),
    )
}

/// The error text `++`/`--` report, by the first failing check.
pub open spec fn chenv_err_text(m: Map<Seq<char>, Seq<char>>, ws: Seq<Seq<char>>) -> Seq<
    char,
> {
    if ws.len() == 1 {
        "Give me a variable name to increment!"@
    } else if ws.len() > 3 {
        "Cannot understand more arguments!"@
    } else if ws.len() == 0 {
        "Give me a variable name to increment!"@
    } else if ws.len() == 3 && !is_int_str(ws[2]) {
        "Can't parse second argument to a number!"@
    } else if map_get(m, ws[1]) is None {
        "Variable \""@ + ws[1] + "\" is not set!"@
    } else {
        "Error occured while converting a variable to a number: "@ + ws[1] + "!"@
    }
}

/// Add to or subtract from one variable: the `++`/`--` builtins.
pub fn chenv(store: &mut VarStore, buf: &Vec<String>, increment: bool) -> (r: Result<
    (),
    String,
>)
    ensures
        (r is Ok) <==> chenv_ok(old(store).map_view(), buf.deep_view()),
        r is Ok ==> final(store).map_view() == old(store).map_view().insert(
            buf.deep_view()[1],
            chenv_value(old(store).map_view(), buf.deep_view(), increment),
        ),
        r is Err ==> *final(store) == *old(store) && r->Err_0@ == chenv_err_text(
            old(store).map_view(),
            buf.deep_view(),
        ),
{
    let ghost ws = buf.deep_view();
    if buf.len() == 1 {
        return Err(String::from_str("Give me a variable name to increment!"));
    }
    if buf.len() > 3 {
        return Err(String::from_str("Cannot understand more arguments!"));
    }
    if buf.len() == 0 {
        return Err(String::from_str("Give me a variable name to increment!"));
    }
    proof {
        assert(ws[1] == buf@[1]@);
    }
    let mut amount = String::from_str("1");
    proof {
        reveal_strlit("1");
        assert(amount@.len() == 1);
        assert(amount@[0] == '1');
        assert(is_uint_str(amount@));
        assert(amount@.drop_last() =~= Seq::<char>::empty());
        assert(uint_val(Seq::<char>::empty()) == 0);
        assert(amount@.last() == '1');
        assert(digit_val('1') == 1);
        assert(uint_val(amount@) == 1);
        assert(int_val(amount@) == 1);
    }
    if buf.len() == 3 {
        proof {
            assert(ws[2] == buf@[2]@);
        }
        if !check_int_str(buf[2].as_str()) {
            return Err(String::from_str("Can't parse second argument to a number!"));
        }
        amount = buf[2].clone();
    }
    let current = match store.get(buf[1].as_str()) {
        Some(v) => v,
        None => {
            return Err(
                String::from_str("Variable \"").concat(buf[1].as_str()).concat(
                    "\" is not set!",
                ),
            );
        },
    };
    if !check_int_str(current.as_str()) {
        return Err(
            String::from_str("Error occured while converting a variable to a number: ").concat(
                buf[1].as_str(),
            ).concat("!"),
        );
    }
    let step = if increment {
        amount
    } else {
        neg_int_str(amount.as_str())
    };
    let fresh = big_add(current.as_str(), step.as_str());
    proof {
        crate::numbers::lemma_dec_wf(int_val(current@) + int_val(step@));
    }
    store.set(buf[1].clone(), fresh);
    Ok(())
}

/// Law: reading a variable straight after setting it yields exactly the
/// value that `set` bound, and a value bound by `set name value...` never
/// ends in whitespace.  The premises are the `ensures` of `setenv` and
/// `getenv` on the same store.
pub proof fn lemma_idempotent_variable_read(
    ws: Seq<Seq<char>>,
    before: Map<Seq<char>, Seq<char>>,
    after: Map<Seq<char>, Seq<char>>,
    got: Seq<char>,
)
    requires
        set_target(ws) is Some,
        after == before.insert(set_target(ws)->Some_0.0, set_target(ws)->Some_0.1),
        Option::Some(got) == map_get(after, set_target(ws)->Some_0.0),
    ensures
        got == set_target(ws)->Some_0.1,
        (ws.len() > 2 || first_eq(ws[1]) >= ws[1].len()) && set_target(ws) is Some ==> (
        got.len() > 0 ==> !is_ws(got.last())),
{
    if (ws.len() > 2 || first_eq(ws[1]) >= ws[1].len()) && set_target(ws) is Some {
        crate::strutil::lemma_trim_end_no_trailing(join_from(ws, 2));
    }
}

} // verus!
