//! Variables: commands of the form `VAR name:value` and `DEL name`, and the table
//! of variables they act on.

use vstd::prelude::*;
use crate::decimal::{Decimal, DecimalView};
use crate::lexical::{
    char_views, chars_lt, copy_chars, find_slot, lemma_chars_lt_irreflexive,
    lemma_chars_lt_transitive, strictly_sorted,
};
use crate::text::{
    all_digit_chars, chars_to_string, digit_values, lemma_digit_values_push, spec_digit_value,
    spec_is_digit, str_to_chars, to_digit,
};

verus! {

/// What handling a command line did.
#[derive(Clone, Copy, Debug, PartialEq, Eq, Structural)]
pub enum HandleResult {
    Insertion,
    RemovalFail,
    RemovalSuccess,
    Update,
    GenericFail,
}

/// The text that starts a declaration.
pub open spec fn insertion_prefix() -> Seq<char> {
    seq!['V', 'A', 'R', ' ']
}

/// The text that starts a deletion.
pub open spec fn deletion_prefix() -> Seq<char> {
    seq!['D', 'E', 'L', ' ']
}

/// The digits of a declared value, the number of them after the point, and
/// whether a point was read; `None` for a character other than digits and one
/// point.
pub open spec fn value_scan(chars: Seq<char>) -> Option<(Seq<u8>, nat, bool)>
    decreases chars.len(),
{
    if chars.len() == 0 {
        Some((seq![], 0, false))
    } else {
        match value_scan(chars.drop_last()) {
            None => None,
            Some((d, sc, f)) => {
                let ch = chars.last();
                if spec_is_digit(ch) {
                    Some((d.push(spec_digit_value(ch)), if f { sc + 1 } else { sc }, f))
                } else if ch == '.' && !f {
                    Some((d, sc, true))
                } else {
                    None
                }
            },
        }
    }
}

/// The name and value that a declaration line gives: the line starts with
/// `VAR `, the rest has no space and exactly one colon, the name stands before
/// the colon and the digits of the value after it. A value without digits is zero.
pub open spec fn parse_ins_spec(line: Seq<char>) -> Option<(Seq<char>, DecimalView)> {
    if line.len() < 4 || line.take(4) != insertion_prefix() {
        None
    } else {
        let rest = line.skip(4);
        if rest.contains(' ') {
            None
        } else {
            match rest.index_of_first(':') {
                None => None,
                Some(k) => if rest.skip(k + 1).contains(':') {
                    None
                } else {
                    match value_scan(rest.skip(k + 1)) {
                        None => None,
                        Some((d, sc, _)) => Some(
                            (rest.take(k), DecimalView { negative: false, digits: d, scale: sc }),
                        ),
                    }
                },
            }
        }
    }
}

/// Reading digits extends the value's digits by theirs, and after the point each
/// of them adds one decimal place.
proof fn lemma_value_scan_digits(p: Seq<char>, ds: Seq<char>)
    requires
        value_scan(p) is Some,
        all_digit_chars(ds),
    ensures
        ({
            let (d, sc, f) = value_scan(p)->Some_0;
            value_scan(p + ds) == Some((d + digit_values(ds), sc + if f { ds.len() } else { 0 }, f))
        }),
    decreases ds.len(),
{
    let (d, sc, f) = value_scan(p)->Some_0;
    if ds.len() == 0 {
        assert(p + ds =~= p);
        assert(d + digit_values(ds) =~= d);
    } else {
        let q = ds.drop_last();
        let x = ds.last();
        assert(spec_is_digit(ds[ds.len() - 1]));
        lemma_value_scan_digits(p, q);
        assert((p + ds).drop_last() =~= p + q);
        assert((p + ds).last() == x);
        assert(q.push(x) =~= ds);
        lemma_digit_values_push(q, x);
        assert(d + digit_values(ds) =~= (d + digit_values(q)).push(spec_digit_value(x)));
    }
}

/// A value typed as the digits `ds`, a point and the digits `fs` has exactly the
/// digits of `ds` and `fs`, and as many decimal places as `fs` has digits; one
/// typed as the digits `ds` alone has their digits and no decimal places.
pub proof fn lemma_value_reads_decimal(ds: Seq<char>, fs: Seq<char>)
    requires
        all_digit_chars(ds),
        all_digit_chars(fs),
    ensures
        value_scan(ds + seq!['.'] + fs) == Some((digit_values(ds) + digit_values(fs), fs.len(), true)),
        value_scan(ds) == Some((digit_values(ds), 0nat, false)),
{
    let e = Seq::<char>::empty();
    lemma_value_scan_digits(e, ds);
    assert(e + ds =~= ds);
    assert(Seq::<u8>::empty() + digit_values(ds) =~= digit_values(ds));
    let p = ds.push('.');
    assert(p.drop_last() =~= ds);
    lemma_value_scan_digits(p, fs);
    assert(ds + seq!['.'] + fs =~= p + fs);
}

/// A declaration `VAR name:value`, with a name free of spaces and colons and a
/// value typed as the digits `ds`, a point and the digits `fs`, declares that
/// name with the value whose digits are those of `ds` and `fs` and whose decimal
/// places are the digits of `fs`.
pub proof fn lemma_declaration_reads_decimal(name: Seq<char>, ds: Seq<char>, fs: Seq<char>)
    requires
        !name.contains(' '),
        !name.contains(':'),
        all_digit_chars(ds),
        all_digit_chars(fs),
    ensures
        parse_ins_spec(insertion_prefix() + name + seq![':'] + ds + seq!['.'] + fs) == Some(
            (
                name,
                DecimalView {
                    negative: false,
                    digits: digit_values(ds) + digit_values(fs),
                    scale: fs.len(),
                },
            ),
        ),
{
    let line = insertion_prefix() + name + seq![':'] + ds + seq!['.'] + fs;
    let val = ds + seq!['.'] + fs;
    let rest = name + seq![':'] + val;
    assert(line.take(4) =~= insertion_prefix());
    assert(line.skip(4) =~= rest);
    assert forall|i: int| 0 <= i < val.len() implies #[trigger] val[i] != ' ' && val[i] != ':' by {
        if i < ds.len() {
            assert(spec_is_digit(ds[i]));
        } else if i > ds.len() {
            assert(val[i] == fs[i - ds.len() - 1]);
            assert(spec_is_digit(fs[i - ds.len() - 1]));
        }
    }
    assert(!rest.contains(' ')) by {
        if rest.contains(' ') {
            let i = choose|i: int| 0 <= i < rest.len() && rest[i] == ' ';
            if i < name.len() {
                assert(name[i] == ' ');
            } else if i > name.len() {
                assert(rest[i] == val[i - name.len() - 1]);
            }
        }
    }
    let k = name.len() as int;
    assert(rest[k] == ':');
    rest.index_of_first_ensures(':');
    let idx = rest.index_of_first(':');
    assert(idx == Some(k)) by {
        let j = idx->Some_0;
        if j < k {
            assert(rest[j] == name[j]);
        }
    }
    assert(rest.skip(k + 1) =~= val);
    assert(!val.contains(':')) by {
        if val.contains(':') {
            let i = choose|i: int| 0 <= i < val.len() && val[i] == ':';
            assert(val[i] != ':');
        }
    }
    assert(rest.take(k) =~= name);
    lemma_value_reads_decimal(ds, fs);
}

/// The name that a deletion line gives: the line starts with `DEL ` and the rest,
/// which is the name, has no space and no colon.
pub open spec fn parse_del_spec(line: Seq<char>) -> Option<Seq<char>> {
    if line.len() < 4 || line.take(4) != deletion_prefix() {
        None
    } else if line.skip(4).contains(' ') || line.skip(4).contains(':') {
        None
    } else {
        Some(line.skip(4))
    }
}

/// Whether `c` occurs in `s`.
fn contains_char(s: &[char], c: char) -> (res: bool)
    ensures
        res == s@.contains(c),
{
    let mut i: usize = 0;
    while i < s.len()
        invariant
            i <= s.len(),
            forall|j: int| 0 <= j < i ==> s@[j] != c,
        decreases s.len() - i,
    {
        if s[i] == c {
            return true;
        }
        i = i + 1;
    }
    false
}

/// The index of the first `c` in `s`.
fn first_index_of(s: &[char], c: char) -> (res: Option<usize>)
    ensures
        res matches Some(i) ==> s@.index_of_first(c) == Some(i as int),
        res is None ==> s@.index_of_first(c) is None,
{
    proof {
        s@.index_of_first_ensures(c);
    }
    let mut i: usize = 0;
    while i < s.len()
        invariant
            i <= s.len(),
            forall|j: int| 0 <= j < i ==> s@[j] != c,
        decreases s.len() - i,
    {
        if s[i] == c {
            proof {
                s@.index_of_first_ensures(c);
                let idx = s@.index_of_first(c)->0;
                assert(s@.contains(c));
                if idx < i {
                    assert(s@[idx] != c);
                } else if idx > i {
                    assert(s@[i as int] == c);
                }
            }
            return Some(i);
        }
        i = i + 1;
    }
    None
}

/// The characters of `s` from index `from` on.
fn chars_from(s: &[char], from: usize) -> (res: Vec<char>)
    requires
        from <= s.len(),
    ensures
        res@ == s@.skip(from as int),
{
    let mut v: Vec<char> = Vec::new();
    let mut i: usize = from;
    while i < s.len()
        invariant
            from <= i <= s.len(),
            v@ == s@.subrange(from as int, i as int),
        decreases s.len() - i,
    {
        v.push(s[i]);
        i = i + 1;
        assert(v@ =~= s@.subrange(from as int, i as int));
    }
    assert(v@ =~= s@.skip(from as int));
    v
}

/// The characters of `s` before index `to`.
fn chars_before(s: &[char], to: usize) -> (res: Vec<char>)
    requires
        to <= s.len(),
    ensures
        res@ == s@.take(to as int),
{
    let mut v: Vec<char> = Vec::new();
    let mut i: usize = 0;
    while i < to
        invariant
            i <= to <= s.len(),
            v@ == s@.take(i as int),
        decreases to - i,
    {
        v.push(s[i]);
        i = i + 1;
        assert(v@ =~= s@.take(i as int));
    }
    v
}

/// Whether `s` starts with the four characters `a b c d`.
pub(crate) fn starts_with4(s: &[char], a: char, b: char, c: char, d: char) -> (res: bool)
    ensures
        res == (s.len() >= 4 && s@.take(4) == seq![a, b, c, d]),
{
    if s.len() >= 4 && s[0] == a && s[1] == b && s[2] == c && s[3] == d {
        assert(s@.take(4) =~= seq![a, b, c, d]);
        true
    } else {
        if s.len() >= 4 {
            assert(s@.take(4)[0] == s@[0]);
            assert(s@.take(4)[1] == s@[1]);
            assert(s@.take(4)[2] == s@[2]);
            assert(s@.take(4)[3] == s@[3]);
        }
        false
    }
}

/// Once a prefix is refused, the whole text is.
proof fn lemma_value_scan_refusal_extends(chars: Seq<char>, n: int)
    requires
        0 <= n <= chars.len(),
        value_scan(chars.take(n)) is None,
    ensures
        value_scan(chars) is None,
    decreases chars.len(),
{
    if n < chars.len() {
        assert(chars.drop_last().take(n) =~= chars.take(n));
        lemma_value_scan_refusal_extends(chars.drop_last(), n);
    } else {
        assert(chars.take(n) =~= chars);
    }
}

/// The value of a declaration, read from its digits.
fn scan_value(chars: &[char]) -> (res: Option<Decimal>)
    ensures
        value_scan(chars@) matches Some((d, sc, _)) ==> res matches Some(v) && v@ == (
        DecimalView { negative: false, digits: d, scale: sc }),
        value_scan(chars@) is None ==> res is None,
{
    let mut digits: Vec<u8> = Vec::new();
    let mut scale: usize = 0;
    let mut is_float = false;
    let mut i: usize = 0;
    assert(chars@.take(0) =~= Seq::<char>::empty());
    assert(digits@ =~= Seq::<u8>::empty());
    while i < chars.len()
        invariant
            i <= chars.len(),
            value_scan(chars@.take(i as int)) == Some((digits@, scale as nat, is_float)),
            scale <= i,
        decreases chars.len() - i,
    {
        let ch = chars[i];
        assert(chars@.take(i + 1).drop_last() =~= chars@.take(i as int));
        assert(chars@.take(i + 1).last() == ch);
        match to_digit(ch) {
            Some(d) => {
                digits.push(d);
                if is_float {
                    scale = scale + 1;
                }
            },
            None => {
                if ch == '.' && !is_float {
                    is_float = true;
                } else {
                    proof {
                        lemma_value_scan_refusal_extends(chars@, i + 1);
                    }
                    return None;
                }
            },
        }
        i = i + 1;
    }
    assert(chars@.take(i as int) =~= chars@);
    Some(Decimal { negative: false, digits, scale })
}

/// Reads a declaration line `VAR name:value`.
pub fn parse_ins(line: &str) -> (res: Option<(String, Decimal)>)
    ensures
        parse_ins_spec(line@) matches Some((name, value)) ==> res matches Some(r) && r.0@ == name
            && r.1@ == value,
        parse_ins_spec(line@) is None ==> res is None,
{
    let chars = str_to_chars(line);
    if !starts_with4(chars.as_slice(), 'V', 'A', 'R', ' ') {
        return None;
    }
    let rest = chars_from(chars.as_slice(), 4);
    if contains_char(rest.as_slice(), ' ') {
        return None;
    }
    let k = match first_index_of(rest.as_slice(), ':') {
        Some(k) => k,
        None => {
            return None;
        },
    };
    proof {
        rest@.index_of_first_ensures(':');
    }
    let value_chars = chars_from(rest.as_slice(), k + 1);
    if contains_char(value_chars.as_slice(), ':') {
        return None;
    }
    let value = match scan_value(value_chars.as_slice()) {
        Some(v) => v,
        None => {
            return None;
        },
    };
    let name = chars_before(rest.as_slice(), k);
    Some((chars_to_string(name.as_slice()), value))
}

/// Reads a deletion line `DEL name`.
pub fn parse_del(line: &str) -> (res: Option<String>)
    ensures
        parse_del_spec(line@) matches Some(name) ==> res matches Some(r) && r@ == name,
        parse_del_spec(line@) is None ==> res is None,
{
    let chars = str_to_chars(line);
    if !starts_with4(chars.as_slice(), 'D', 'E', 'L', ' ') {
        return None;
    }
    let rest = chars_from(chars.as_slice(), 4);
    if contains_char(rest.as_slice(), ' ') || contains_char(rest.as_slice(), ':') {
        return None;
    }
    Some(chars_to_string(rest.as_slice()))
}

/// In a list without repetitions, the first occurrence of an entry is where it stands.
proof fn lemma_sorted_index_of(ns: Seq<Seq<char>>, i: int)
    requires
        strictly_sorted(ns),
        0 <= i < ns.len(),
    ensures
        ns.index_of_first(ns[i]) == Some(i),
{
    ns.index_of_first_ensures(ns[i]);
    let idx = ns.index_of_first(ns[i])->0;
    if idx < i {
        assert(chars_lt(ns[idx], ns[i]));
        lemma_chars_lt_irreflexive(ns[i]);
    } else if idx > i {
        assert(ns[i] != ns[i]);
    }
}

/// The table and the outcome after a command line: a declaration sets its name
/// (an update if the name was declared, an insertion if not), a deletion removes
/// its name (a success if the name was declared, a failure if not), any other
/// line leaves the table as it was.
pub open spec fn handle_spec(map: Map<Seq<char>, DecimalView>, line: Seq<char>) -> (
    Map<Seq<char>, DecimalView>,
    HandleResult,
) {
    match parse_ins_spec(line) {
        Some((name, value)) => (
            map.insert(name, value),
            if map.contains_key(name) {
                HandleResult::Update
            } else {
                HandleResult::Insertion
            },
        ),
        None => match parse_del_spec(line) {
            Some(name) => (
                map.remove(name),
                if map.contains_key(name) {
                    HandleResult::RemovalSuccess
                } else {
                    HandleResult::RemovalFail
                },
            ),
            None => (map, HandleResult::GenericFail),
        },
    }
}

/// A declaration makes its name read back its value and leaves every other name
/// as it was; declaring the same name again reports an update.
pub proof fn lemma_declaration_read_back(
    map: Map<Seq<char>, DecimalView>,
    line: Seq<char>,
    name: Seq<char>,
    value: DecimalView,
)
    requires
        parse_ins_spec(line) == Some((name, value)),
    ensures
        handle_spec(map, line).0.contains_key(name),
        handle_spec(map, line).0[name] == value,
        forall|k: Seq<char>|
            k != name ==> (#[trigger] handle_spec(map, line).0.contains_key(k) == map.contains_key(k)
                && (map.contains_key(k) ==> handle_spec(map, line).0[k] == map[k])),
        handle_spec(handle_spec(map, line).0, line).1 == HandleResult::Update,
{
}

/// A deletion line is never a declaration line.
proof fn lemma_deletion_not_declaration(line: Seq<char>)
    requires
        parse_del_spec(line) is Some,
    ensures
        parse_ins_spec(line) is None,
{
    assert(line.take(4)[0] == 'D');
    assert(insertion_prefix()[0] == 'V');
}

/// A deletion removes its name, whether or not it was declared, and reports
/// success exactly when it was.
pub proof fn lemma_deletion_removes(map: Map<Seq<char>, DecimalView>, line: Seq<char>, name: Seq<char>)
    requires
        parse_del_spec(line) == Some(name),
    ensures
        !handle_spec(map, line).0.contains_key(name),
        handle_spec(map, line).1 == (if map.contains_key(name) {
            HandleResult::RemovalSuccess
        } else {
            HandleResult::RemovalFail
        }),
        forall|k: Seq<char>|
            k != name ==> (#[trigger] handle_spec(map, line).0.contains_key(k) == map.contains_key(k)),
{
    lemma_deletion_not_declaration(line);
}

/// The predeclared constants.
pub open spec fn constants_map() -> Map<Seq<char>, DecimalView> {
    map![
        seq!['p', 'i'] => DecimalView {
            negative: false,
            digits: seq![3u8, 1, 4, 1, 5, 9, 2, 6, 5, 3, 5, 8, 9, 7, 9, 3],
            scale: 15,
        },
        seq!['e'] => DecimalView {
            negative: false,
            digits: seq![2u8, 7, 1, 8, 2, 8, 1, 8, 2, 8, 4, 5, 9, 0, 4, 5],
            scale: 15,
        },
        seq!['e', 'u', 'l', 'e', 'r', '_', 'g', 'a', 'm', 'm', 'a'] => DecimalView {
            negative: false,
            digits: seq![5u8, 7, 7, 2, 1, 5, 6, 6, 4, 9, 0, 1, 5, 3, 2, 9],
            scale: 16,
        }
    ]
}

/// The table of variables: names in lexicographic order, each with its value.
pub struct VarMap {
    names: Vec<Vec<char>>,
    values: Vec<Decimal>,
}

/// The map from names to values that two parallel lists describe.
pub open spec fn table_map(names: Seq<Seq<char>>, values: Seq<DecimalView>) -> Map<
    Seq<char>,
    DecimalView,
> {
    Map::new(|k: Seq<char>| names.contains(k), |k: Seq<char>| values[names.index_of_first(k)->0])
}

impl View for VarMap {
    type V = Map<Seq<char>, DecimalView>;

    closed spec fn view(&self) -> Map<Seq<char>, DecimalView> {
        table_map(char_views(self.names@), crate::fold_expr::views(self.values@))
    }
}

impl VarMap {
    /// The names, in lexicographic order.
    pub closed spec fn name_list(&self) -> Seq<Seq<char>> {
        char_views(self.names@)
    }

    /// The table is consistent: one value per name, names strictly sorted.
    pub closed spec fn wf(&self) -> bool {
        &&& self.names.len() == self.values.len()
        &&& strictly_sorted(char_views(self.names@))
    }

    /// The listed names are exactly the table's names, in lexicographic order.
    pub proof fn lemma_name_list(&self)
        requires
            self.wf(),
        ensures
            strictly_sorted(self.name_list()),
            forall|k: Seq<char>| self@.contains_key(k) <==> self.name_list().contains(k),
    {
    }

    /// An empty table.
    pub fn empty() -> (res: VarMap)
        ensures
            res.wf(),
            res@ == Map::<Seq<char>, DecimalView>::empty(),
    {
        let res = VarMap { names: Vec::new(), values: Vec::new() };
        assert(res@ =~= Map::<Seq<char>, DecimalView>::empty());
        res
    }

    /// The number of variables.
    pub fn len(&self) -> (res: usize)
        requires
            self.wf(),
        ensures
            res == self.name_list().len(),
            res == self@.dom().len(),
    {
        proof {
            self.lemma_dom_len();
        }
        self.names.len()
    }

    proof fn lemma_dom_len(&self)
        requires
            self.wf(),
        ensures
            self@.dom().len() == self.name_list().len(),
            self@.dom() == self.name_list().to_set(),
    {
        let ns = self.name_list();
        assert(self@.dom() =~= ns.to_set());
        assert(ns.no_duplicates()) by {
            assert forall|i: int, j: int| 0 <= i < ns.len() && 0 <= j < ns.len() && i != j implies ns[i] != ns[j] by {
                if i < j {
                    assert(chars_lt(ns[i], ns[j]));
                    lemma_chars_lt_irreflexive(ns[j]);
                } else {
                    assert(chars_lt(ns[j], ns[i]));
                    lemma_chars_lt_irreflexive(ns[i]);
                }
            }
        }
        ns.unique_seq_to_set();
    }

    /// The name at `index` in lexicographic order.
    pub fn name_at(&self, index: usize) -> (res: String)
        requires
            self.wf(),
            index < self.name_list().len(),
        ensures
            res@ == self.name_list()[index as int],
    {
        chars_to_string(self.names[index].as_slice())
    }

    /// The characters of the name at `index` in lexicographic order.
    pub fn name_chars(&self, index: usize) -> (res: &[char])
        requires
            self.wf(),
            index < self.name_list().len(),
        ensures
            res@ == self.name_list()[index as int],
    {
        self.names[index].as_slice()
    }

    /// The value of the name at `index` in lexicographic order.
    pub fn value_at(&self, index: usize) -> (res: &Decimal)
        requires
            self.wf(),
            index < self.name_list().len(),
        ensures
            res@ == self@[self.name_list()[index as int]],
    {
        proof {
            lemma_sorted_index_of(self.name_list(), index as int);
        }
        &self.values[index]
    }

    /// The value of `name`, if it is declared.
    pub fn get(&self, name: &[char]) -> (res: Option<&Decimal>)
        requires
            self.wf(),
        ensures
            self@.contains_key(name@) ==> (res matches Some(v) && v@ == self@[name@]),
            !self@.contains_key(name@) ==> res is None,
    {
        let (i, found) = find_slot(&self.names, name);
        if found {
            proof {
                lemma_sorted_index_of(self.name_list(), i as int);
            }
            Some(&self.values[i])
        } else {
            proof {
                if self.name_list().contains(name@) {
                    let j = choose|j: int| 0 <= j < self.name_list().len() && self.name_list()[j] == name@;
                    if j < i {
                        lemma_chars_lt_irreflexive(name@);
                    } else {
                        lemma_chars_lt_irreflexive(name@);
                    }
                }
            }
            None
        }
    }

    /// Sets `name` to `value`; returns whether the name was new.
    pub fn insert(&mut self, name: Vec<char>, value: Decimal) -> (res: bool)
        requires
            old(self).wf(),
        ensures
            final(self).wf(),
            final(self)@ == old(self)@.insert(name@, value@),
            res == !old(self)@.contains_key(name@),
    {
        let ghost ns = self.name_list();
        let ghost vs = crate::fold_expr::views(self.values@);
        let ghost old_map = self@;
        let (i, found) = find_slot(&self.names, name.as_slice());
        let ghost nm = name@;
        let ghost v = value@;
        if found {
            self.values.set(i, value);
            proof {
                let vs2 = crate::fold_expr::views(self.values@);
                assert(vs2 =~= vs.update(i as int, v));
                lemma_sorted_index_of(ns, i as int);
                assert(self@ =~= old_map.insert(nm, v)) by {
                    assert forall|k: Seq<char>| #[trigger] self@.contains_key(k) implies self@[k]
                        == old_map.insert(nm, v)[k] by {
                        let j = choose|j: int| 0 <= j < ns.len() && ns[j] == k;
                        lemma_sorted_index_of(ns, j);
                    }
                }
            }
            false
        } else {
            proof {
                if ns.contains(nm) {
                    let j = choose|j: int| 0 <= j < ns.len() && ns[j] == nm;
                    lemma_chars_lt_irreflexive(nm);
                }
            }
            self.names.insert(i, name);
            self.values.insert(i, value);
            proof {
                let ns2 = self.name_list();
                let vs2 = crate::fold_expr::views(self.values@);
                assert(ns2 =~= ns.insert(i as int, nm));
                assert(vs2 =~= vs.insert(i as int, v));
                assert forall|a: int, b: int| 0 <= a < b < ns2.len() implies chars_lt(
                    #[trigger] ns2[a],
                    #[trigger] ns2[b],
                ) by {
                    if b < i {
                        assert(ns2[a] == ns[a] && ns2[b] == ns[b]);
                    } else if a < i && b == i {
                        assert(ns2[a] == ns[a]);
                    } else if a < i && b > i {
                        assert(ns2[a] == ns[a] && ns2[b] == ns[b - 1]);
                    } else if a == i {
                        assert(ns2[b] == ns[b - 1]);
                    } else {
                        assert(ns2[a] == ns[a - 1] && ns2[b] == ns[b - 1]);
                    }
                }
                assert(self@ =~= old_map.insert(nm, v)) by {
                    assert forall|k: Seq<char>| ns2.contains(k) <==> (ns.contains(k) || k == nm) by {
                        if ns2.contains(k) {
                            let j = choose|j: int| 0 <= j < ns2.len() && ns2[j] == k;
                            if j < i {
                                assert(ns[j] == k);
                            } else if j > i {
                                assert(ns[j - 1] == k);
                            }
                        }
                        if ns.contains(k) {
                            let j = choose|j: int| 0 <= j < ns.len() && ns[j] == k;
                            if j < i {
                                assert(ns2[j] == k);
                            } else {
                                assert(ns2[j + 1] == k);
                            }
                        }
                        if k == nm {
                            assert(ns2[i as int] == nm);
                        }
                    }
                    assert forall|k: Seq<char>| #[trigger] self@.contains_key(k) implies self@[k]
                        == old_map.insert(nm, v)[k] by {
                        let j = choose|j: int| 0 <= j < ns2.len() && ns2[j] == k;
                        lemma_sorted_index_of(ns2, j);
                        if j < i {
                            lemma_sorted_index_of(ns, j);
                        } else if j > i {
                            lemma_sorted_index_of(ns, j - 1);
                        }
                    }
                }
            }
            true
        }
    }

    /// Removes `name`; returns whether it was declared.
    pub fn remove(&mut self, name: &[char]) -> (res: bool)
        requires
            old(self).wf(),
        ensures
            final(self).wf(),
            final(self)@ == old(self)@.remove(name@),
            res == old(self)@.contains_key(name@),
    {
        let ghost ns = self.name_list();
        let ghost vs = crate::fold_expr::views(self.values@);
        let ghost old_map = self@;
        let ghost nm = name@;
        let (i, found) = find_slot(&self.names, name);
        if !found {
            proof {
                if ns.contains(nm) {
                    let j = choose|j: int| 0 <= j < ns.len() && ns[j] == nm;
                    lemma_chars_lt_irreflexive(nm);
                }
                assert(self@ =~= old_map.remove(nm));
            }
            return false;
        }
        assert(ns[i as int] == nm);
        assert(old_map.contains_key(nm));
        self.names.remove(i);
        self.values.remove(i);
        proof {
            let ns2 = self.name_list();
            let vs2 = crate::fold_expr::views(self.values@);
            assert(ns2 =~= ns.remove(i as int));
            assert(vs2 =~= vs.remove(i as int));
            assert forall|a: int, b: int| 0 <= a < b < ns2.len() implies chars_lt(
                #[trigger] ns2[a],
                #[trigger] ns2[b],
            ) by {
                if b < i {
                    assert(ns2[a] == ns[a] && ns2[b] == ns[b]);
                } else if a < i {
                    assert(ns2[a] == ns[a] && ns2[b] == ns[b + 1]);
                } else {
                    assert(ns2[a] == ns[a + 1] && ns2[b] == ns[b + 1]);
                }
            }
            assert(self@ =~= old_map.remove(nm)) by {
                assert forall|k: Seq<char>| ns2.contains(k) <==> (ns.contains(k) && k != nm) by {
                    if ns2.contains(k) {
                        let j = choose|j: int| 0 <= j < ns2.len() && ns2[j] == k;
                        if j < i {
                            assert(ns[j] == k);
                            assert(chars_lt(ns[j], ns[i as int]));
                            lemma_chars_lt_irreflexive(k);
                        } else {
                            assert(ns[j + 1] == k);
                            assert(chars_lt(ns[i as int], ns[j + 1]));
                            lemma_chars_lt_irreflexive(k);
                        }
                    }
                    if ns.contains(k) && k != nm {
                        let j = choose|j: int| 0 <= j < ns.len() && ns[j] == k;
                        if j < i {
                            assert(ns2[j] == k);
                        } else {
                            assert(j != i);
                            assert(ns2[j - 1] == k);
                        }
                    }
                }
                assert forall|k: Seq<char>| #[trigger] self@.contains_key(k) implies self@[k]
                    == old_map.remove(nm)[k] by {
                    let j = choose|j: int| 0 <= j < ns2.len() && ns2[j] == k;
                    lemma_sorted_index_of(ns2, j);
                    if j < i {
                        lemma_sorted_index_of(ns, j);
                    } else {
                        lemma_sorted_index_of(ns, j + 1);
                    }
                }
            }
        }
        true
    }

    /// Carries out a command line: `VAR name:value` declares or updates a
    /// variable, `DEL name` removes one; any other line changes nothing.
    pub fn handle(&mut self, line: String) -> (res: HandleResult)
        requires
            old(self).wf(),
        ensures
            final(self).wf(),
            (final(self)@, res) == handle_spec(old(self)@, line@),
    {
        if let Some((key, val)) = parse_ins(line.as_str()) {
            let name = str_to_chars(key.as_str());
            return if self.insert(name, val) {
                HandleResult::Insertion
            } else {
                HandleResult::Update
            };
        }
        if let Some(var_name) = parse_del(line.as_str()) {
            let name = str_to_chars(var_name.as_str());
            return if self.remove(name.as_slice()) {
                HandleResult::RemovalSuccess
            } else {
                HandleResult::RemovalFail
            };
        }
        HandleResult::GenericFail
    }

    /// The table with the predeclared constants `pi`, `e` and `euler_gamma`, each
    /// written with the shortest numeral that reads back as its double value.
    pub fn new() -> (res: VarMap)
        ensures
            res.wf(),
            res@ == constants_map(),
    {
        let mut map = VarMap::empty();
        let pi_name = vec!['p', 'i'];
        let pi_digits = vec![3u8, 1, 4, 1, 5, 9, 2, 6, 5, 3, 5, 8, 9, 7, 9, 3];
        assert(pi_name@ =~= seq!['p', 'i']);
        assert(pi_digits@ =~= seq![3u8, 1, 4, 1, 5, 9, 2, 6, 5, 3, 5, 8, 9, 7, 9, 3]);
        map.insert(pi_name, Decimal { negative: false, digits: pi_digits, scale: 15 });
        let e_name = vec!['e'];
        let e_digits = vec![2u8, 7, 1, 8, 2, 8, 1, 8, 2, 8, 4, 5, 9, 0, 4, 5];
        assert(e_name@ =~= seq!['e']);
        assert(e_digits@ =~= seq![2u8, 7, 1, 8, 2, 8, 1, 8, 2, 8, 4, 5, 9, 0, 4, 5]);
        map.insert(e_name, Decimal { negative: false, digits: e_digits, scale: 15 });
        let g_name = vec!['e', 'u', 'l', 'e', 'r', '_', 'g', 'a', 'm', 'm', 'a'];
        let g_digits = vec![5u8, 7, 7, 2, 1, 5, 6, 6, 4, 9, 0, 1, 5, 3, 2, 9];
        assert(g_name@ =~= seq!['e', 'u', 'l', 'e', 'r', '_', 'g', 'a', 'm', 'm', 'a']);
        assert(g_digits@ =~= seq![5u8, 7, 7, 2, 1, 5, 6, 6, 4, 9, 0, 1, 5, 3, 2, 9]);
        map.insert(g_name, Decimal { negative: false, digits: g_digits, scale: 16 });
        assert(map@ =~= constants_map());
        map
    }
}

} // verus!
