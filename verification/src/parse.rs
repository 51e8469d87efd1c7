//! The DDL parser: pattern scans over one `CREATE TABLE` statement.
//!
//! Three independent passes run over the same text — columns, constraint
//! clauses, table options — deliberately sharing no parse state.  Each
//! pass degrades gracefully: text that matches no pattern contributes
//! nothing, and parsing never fails.  The passes are heuristic, not a SQL
//! grammar; a backtick-quoted name followed by a definition is taken for
//! a column wherever it appears, a known precision boundary.

use vstd::prelude::*;

use crate::dict::{fold_pairs, has_key, lemma_fold_pairs_push, lemma_upsert_absent, StrDict};
use crate::table::{TableDefView, TableDefinition};
use crate::text::{
    char_ieq, chars_of, scan_space, scan_trim_trailing, scan_word, space_end, trim_trailing,
    word_end,
};

verus! {

pub open spec fn kw_primary() -> Seq<char> {
    "PRIMARY KEY"@
}

pub open spec fn kw_unique() -> Seq<char> {
    "UNIQUE KEY"@
}

pub open spec fn kw_secondary() -> Seq<char> {
    "KEY"@
}

pub open spec fn kw_fulltext() -> Seq<char> {
    "FULLTEXT KEY"@
}

pub open spec fn kw_constraint() -> Seq<char> {
    "CONSTRAINT"@
}

pub open spec fn kw_engine() -> Seq<char> {
    "ENGINE="@
}

pub open spec fn kw_default() -> Seq<char> {
    "DEFAULT"@
}

pub open spec fn kw_charset() -> Seq<char> {
    "CHARSET="@
}

/// Case-insensitive match of `kw` against `s` at position `i`.
pub open spec fn ieq_at(s: Seq<char>, i: int, kw: Seq<char>) -> bool {
    &&& 0 <= i
    &&& i + kw.len() <= s.len()
    &&& forall|j: int| 0 <= j < kw.len() ==> #[trigger] char_ieq(s[i + j], kw[j])
}

/// End of a column definition starting at `i`: the first comma at
/// parenthesis depth zero — so a type such as `DECIMAL(10,2)` is not cut
/// short — or the unbalanced close parenthesis that ends the column list.
pub open spec fn col_def_end(s: Seq<char>, i: int, depth: int) -> int
    decreases s.len() - i when 0 <= i <= s.len()
{
    if i >= s.len() {
        i
    } else if (s[i] == ',' || s[i] == ')') && depth <= 0 {
        i
    } else if s[i] == '(' {
        col_def_end(s, i + 1, depth + 1)
    } else if s[i] == ')' {
        col_def_end(s, i + 1, depth - 1)
    } else {
        col_def_end(s, i + 1, depth)
    }
}

pub proof fn lemma_col_def_end(s: Seq<char>, i: int, depth: int)
    requires
        0 <= i <= s.len(),
    ensures
        i <= col_def_end(s, i, depth) <= s.len(),
    decreases s.len() - i,
{
    if i < s.len() && !((s[i] == ',' || s[i] == ')') && depth <= 0) {
        if s[i] == '(' {
            lemma_col_def_end(s, i + 1, depth + 1);
        } else if s[i] == ')' {
            lemma_col_def_end(s, i + 1, depth - 1);
        } else {
            lemma_col_def_end(s, i + 1, depth);
        }
    }
}

/// Position of the close parenthesis that balances an open parenthesis
/// when the scan starts at `i` with `depth` opens outstanding.
pub open spec fn paren_close(s: Seq<char>, i: int, depth: int) -> Option<int>
    decreases s.len() - i when 0 <= i <= s.len()
{
    if i >= s.len() {
        None
    } else if s[i] == ')' && depth <= 1 {
        Some(i)
    } else if s[i] == ')' {
        paren_close(s, i + 1, depth - 1)
    } else if s[i] == '(' {
        paren_close(s, i + 1, depth + 1)
    } else {
        paren_close(s, i + 1, depth)
    }
}

/// A column pattern at position `i`: backtick, name, backtick, at least
/// one whitespace character, then the definition text up to the first
/// depth-zero comma or unbalanced close parenthesis, trailing whitespace
/// dropped.  A definition may not begin with an open parenthesis: that
/// shape belongs to the constraint pass (and to the table header), not to
/// a column.  Yields the name, the definition, and the position where the
/// scan resumes.
pub open spec fn column_match_at(s: Seq<char>, i: int) -> Option<(Seq<char>, Seq<char>, int)> {
    if 0 <= i < s.len() && s[i] == '`' {
        let ne = word_end(s, i + 1);
        if ne > i + 1 && ne < s.len() && s[ne] == '`' {
            let we = space_end(s, ne + 1);
            if we > ne + 1 && we < s.len() && s[we] != '(' {
                let de = col_def_end(s, we, 0);
                if de > we {
                    Some((s.subrange(i + 1, ne), s.subrange(we, trim_trailing(s, we, de)), de))
                } else {
                    None
                }
            } else {
                None
            }
        } else {
            None
        }
    } else {
        None
    }
}

/// All column matches of the text, leftmost first, the scan resuming
/// after each match.
pub open spec fn scan_columns(s: Seq<char>, i: int) -> Seq<(Seq<char>, Seq<char>)>
    decreases s.len() - i when 0 <= i <= s.len()
{
    if i >= s.len() {
        Seq::empty()
    } else {
        match column_match_at(s, i) {
            Some(m) => {
                let next = if m.2 <= i {
                    i + 1
                } else if m.2 > s.len() {
                    s.len() as int
                } else {
                    m.2
                };
                seq![(m.0, m.1)] + scan_columns(s, next)
            },
            None => scan_columns(s, i + 1),
        }
    }
}

/// The five constraint categories the scanner distinguishes.
#[derive(PartialEq, Eq, Structural, Clone, Copy, Debug)]
pub enum KeyKind {
    Primary,
    Unique,
    Secondary,
    Foreign,
    Fulltext,
}

/// Which constraint keyword, if any, stands at position `i`, and the
/// position just past it.  The keywords begin with distinct letters, so
/// at most one can match.
pub open spec fn kind_at(s: Seq<char>, i: int) -> Option<(KeyKind, int)> {
    if ieq_at(s, i, kw_primary()) {
        Some((KeyKind::Primary, i + kw_primary().len()))
    } else if ieq_at(s, i, kw_unique()) {
        Some((KeyKind::Unique, i + kw_unique().len()))
    } else if ieq_at(s, i, kw_secondary()) {
        Some((KeyKind::Secondary, i + kw_secondary().len()))
    } else if ieq_at(s, i, kw_fulltext()) {
        Some((KeyKind::Fulltext, i + kw_fulltext().len()))
    } else if ieq_at(s, i, kw_constraint()) {
        Some((KeyKind::Foreign, i + kw_constraint().len()))
    } else {
        None
    }
}

/// The tail of a constraint pattern: optional whitespace already
/// consumed, a parenthesized column list must follow at `p`, captured up
/// to its balancing close parenthesis, which must not come first.
pub open spec fn constraint_tail(s: Seq<char>, k: KeyKind, name: Seq<char>, p: int) -> Option<
    (KeyKind, Seq<char>, Seq<char>, int),
> {
    if 0 <= p < s.len() && s[p] == '(' {
        match paren_close(s, p + 1, 1) {
            Some(q) => {
                if q > p + 1 {
                    Some((k, name, s.subrange(p, q + 1), q + 1))
                } else {
                    None
                }
            },
            None => None,
        }
    } else {
        None
    }
}

/// A constraint pattern at position `i`: a keyword, an optional
/// backtick-quoted name (empty when absent), then a parenthesized list.
pub open spec fn constraint_match_at(s: Seq<char>, i: int) -> Option<
    (KeyKind, Seq<char>, Seq<char>, int),
> {
    match kind_at(s, i) {
        None => None,
        Some(ka) => {
            let w1 = space_end(s, ka.1);
            if w1 < s.len() && s[w1] == '`' {
                let ne = word_end(s, w1 + 1);
                if ne > w1 + 1 && ne < s.len() && s[ne] == '`' {
                    constraint_tail(s, ka.0, s.subrange(w1 + 1, ne), space_end(s, ne + 1))
                } else {
                    None
                }
            } else {
                constraint_tail(s, ka.0, Seq::empty(), w1)
            }
        },
    }
}

/// All constraint matches of the text, leftmost first.
pub open spec fn scan_constraints(s: Seq<char>, i: int) -> Seq<(KeyKind, Seq<char>, Seq<char>)>
    decreases s.len() - i when 0 <= i <= s.len()
{
    if i >= s.len() {
        Seq::empty()
    } else {
        match constraint_match_at(s, i) {
            Some(m) => {
                let next = if m.3 <= i {
                    i + 1
                } else if m.3 > s.len() {
                    s.len() as int
                } else {
                    m.3
                };
                seq![(m.0, m.1, m.2)] + scan_constraints(s, next)
            },
            None => scan_constraints(s, i + 1),
        }
    }
}

/// The name/definition pairs of one category, in match order.
pub open spec fn of_kind(cs: Seq<(KeyKind, Seq<char>, Seq<char>)>, k: KeyKind) -> Seq<
    (Seq<char>, Seq<char>),
>
    decreases cs.len(),
{
    if cs.len() == 0 {
        Seq::empty()
    } else {
        let rest = of_kind(cs.drop_last(), k);
        if cs.last().0 == k {
            rest.push((cs.last().1, cs.last().2))
        } else {
            rest
        }
    }
}

/// The options pattern at position `i`: `ENGINE=<word>`, whitespace,
/// `DEFAULT`, whitespace, `CHARSET=<word>`, keywords case-insensitive.
pub open spec fn options_match_at(s: Seq<char>, i: int) -> Option<(Seq<char>, Seq<char>)> {
    if ieq_at(s, i, kw_engine()) {
        let ee = word_end(s, i + kw_engine().len());
        if ee > i + kw_engine().len() {
            let s1 = space_end(s, ee);
            if s1 > ee && ieq_at(s, s1, kw_default()) {
                let s2 = space_end(s, s1 + kw_default().len());
                if s2 > s1 + kw_default().len() && ieq_at(s, s2, kw_charset()) {
                    let ce = word_end(s, s2 + kw_charset().len());
                    if ce > s2 + kw_charset().len() {
                        Some(
                            (
                                s.subrange(i + kw_engine().len(), ee),
                                s.subrange(s2 + kw_charset().len(), ce),
                            ),
                        )
                    } else {
                        None
                    }
                } else {
                    None
                }
            } else {
                None
            }
        } else {
            None
        }
    } else {
        None
    }
}

/// The first options match of the text, if any.
pub open spec fn find_options(s: Seq<char>, i: int) -> Option<(Seq<char>, Seq<char>)>
    decreases s.len() - i when 0 <= i <= s.len()
{
    if i >= s.len() {
        None
    } else {
        match options_match_at(s, i) {
            Some(m) => Some(m),
            None => find_options(s, i + 1),
        }
    }
}

/// The option entries recorded for a match: both names or neither.
pub open spec fn options_entries(o: Option<(Seq<char>, Seq<char>)>) -> Seq<
    (Seq<char>, Seq<char>),
> {
    match o {
        None => Seq::empty(),
        Some(m) => seq![("engine"@, m.0), ("charset"@, m.1)],
    }
}

/// What parsing a statement yields: each category is its scan's matches
/// folded into a dictionary (a repeated name keeps its first position and
/// the last definition), options as a pair or not at all.
pub open spec fn parsed_def(s: Seq<char>) -> TableDefView {
    TableDefView {
        columns: fold_pairs(scan_columns(s, 0)),
        primary: fold_pairs(of_kind(scan_constraints(s, 0), KeyKind::Primary)),
        unique: fold_pairs(of_kind(scan_constraints(s, 0), KeyKind::Unique)),
        keys: fold_pairs(of_kind(scan_constraints(s, 0), KeyKind::Secondary)),
        foreign: fold_pairs(of_kind(scan_constraints(s, 0), KeyKind::Foreign)),
        fulltext: fold_pairs(of_kind(scan_constraints(s, 0), KeyKind::Fulltext)),
        options: options_entries(find_options(s, 0)),
    }
}

proof fn lemma_of_kind_push(cs: Seq<(KeyKind, Seq<char>, Seq<char>)>, c: (KeyKind, Seq<char>, Seq<char>), k: KeyKind)
    ensures
        of_kind(cs.push(c), k) == if c.0 == k {
            of_kind(cs, k).push((c.1, c.2))
        } else {
            of_kind(cs, k)
        },
{
    assert(cs.push(c).drop_last() =~= cs);
    assert(cs.push(c).last() == c);
}

/// The keyword texts, spelled once as character vectors.
pub struct Keywords {
    pub primary: Vec<char>,
    pub unique: Vec<char>,
    pub secondary: Vec<char>,
    pub fulltext: Vec<char>,
    pub constr: Vec<char>,
    pub engine: Vec<char>,
    pub defaultw: Vec<char>,
    pub charset: Vec<char>,
}

pub open spec fn kws_wf(k: &Keywords) -> bool {
    &&& k.primary@ == kw_primary()
    &&& k.unique@ == kw_unique()
    &&& k.secondary@ == kw_secondary()
    &&& k.fulltext@ == kw_fulltext()
    &&& k.constr@ == kw_constraint()
    &&& k.engine@ == kw_engine()
    &&& k.defaultw@ == kw_default()
    &&& k.charset@ == kw_charset()
}

pub fn keywords() -> (k: Keywords)
    ensures
        kws_wf(&k),
{
    Keywords {
        primary: chars_of("PRIMARY KEY"),
        unique: chars_of("UNIQUE KEY"),
        secondary: chars_of("KEY"),
        fulltext: chars_of("FULLTEXT KEY"),
        constr: chars_of("CONSTRAINT"),
        engine: chars_of("ENGINE="),
        defaultw: chars_of("DEFAULT"),
        charset: chars_of("CHARSET="),
    }
}

/// Executable form of [`ieq_at`].
pub fn ieq_check(v: &Vec<char>, i: usize, kw: &Vec<char>) -> (r: bool)
    ensures
        r == ieq_at(v@, i as int, kw@),
{
    let m = kw.len();
    let n = v.len();
    if n < m || i > n - m {
        return false;
    }
    let mut j: usize = 0;
    while j < m
        invariant
            m == kw@.len(),
            n == v@.len(),
            i + m <= n,
            j <= m,
            forall|t: int| 0 <= t < j ==> #[trigger] char_ieq(v@[i + t], kw@[t]),
        decreases m - j,
    {
        if !crate::text::chars_ieq(v[i + j], kw[j]) {
            return false;
        }
        j = j + 1;
    }
    true
}

/// Executable form of [`col_def_end`] from depth zero.
pub fn scan_col_def(v: &Vec<char>, i: usize) -> (r: usize)
    requires
        i <= v@.len(),
    ensures
        r == col_def_end(v@, i as int, 0),
        i <= r <= v@.len(),
{
    let n = v.len();
    let mut j = i;
    let mut depth: usize = 0;
    while j < n && !((v[j] == ',' || v[j] == ')') && depth == 0)
        invariant
            n == v@.len(),
            i <= j <= n,
            depth <= j,
            col_def_end(v@, i as int, 0) == col_def_end(v@, j as int, depth as int),
        decreases n - j,
    {
        if v[j] == '(' {
            depth = depth + 1;
        } else if v[j] == ')' {
            depth = depth - 1;
        }
        j = j + 1;
    }
    proof {
        lemma_col_def_end(v@, i as int, 0);
    }
    j
}

/// Executable form of [`paren_close`] from depth one.
pub fn scan_paren_close(v: &Vec<char>, i: usize) -> (r: Option<usize>)
    requires
        i <= v@.len(),
    ensures
        match r {
            Some(q) => paren_close(v@, i as int, 1) == Some(q as int) && i <= q < v@.len(),
            None => paren_close(v@, i as int, 1) is None,
        },
{
    let n = v.len();
    let mut j = i;
    let mut depth: u128 = 1;
    while j < n && !(v[j] == ')' && depth == 1)
        invariant
            n == v@.len(),
            i <= j <= n,
            1 <= depth,
            depth as int <= j - i + 1,
            paren_close(v@, i as int, 1) == paren_close(v@, j as int, depth as int),
        decreases n - j,
    {
        if v[j] == '(' {
            depth = depth + 1;
        } else if v[j] == ')' {
            depth = depth - 1;
        }
        j = j + 1;
    }
    if j < n {
        Some(j)
    } else {
        None
    }
}

/// Try the column pattern at position `i`.
fn try_column_at(s: &str, v: &Vec<char>, i: usize) -> (r: Option<(String, String, usize)>)
    requires
        v@ == s@,
        i < v@.len(),
    ensures
        match r {
            Some(m) => column_match_at(v@, i as int) == Some((m.0@, m.1@, m.2 as int)) && i < m.2
                <= v@.len(),
            None => column_match_at(v@, i as int) is None,
        },
{
    let n = v.len();
    if v[i] != '`' {
        return None;
    }
    let ne = scan_word(v, i + 1);
    if !(ne > i + 1 && ne < n && v[ne] == '`') {
        return None;
    }
    let we = scan_space(v, ne + 1);
    if !(we > ne + 1 && we < n && v[we] != '(') {
        return None;
    }
    let de = scan_col_def(v, we);
    if !(de > we) {
        return None;
    }
    let te = scan_trim_trailing(v, we, de);
    let name = String::from_str(s.substring_char(i + 1, ne));
    let def = String::from_str(s.substring_char(we, te));
    Some((name, def, de))
}

/// Executable form of [`kind_at`].
fn kind_check(v: &Vec<char>, i: usize, kws: &Keywords) -> (r: Option<(KeyKind, usize)>)
    requires
        kws_wf(kws),
        i <= v@.len(),
    ensures
        match r {
            Some(m) => kind_at(v@, i as int) == Some((m.0, m.1 as int)) && i < m.1 <= v@.len(),
            None => kind_at(v@, i as int) is None,
        },
{
    proof {
        reveal_strlit("PRIMARY KEY");
        reveal_strlit("UNIQUE KEY");
        reveal_strlit("KEY");
        reveal_strlit("FULLTEXT KEY");
        reveal_strlit("CONSTRAINT");
    }
    let n = v.len();
    if ieq_check(v, i, &kws.primary) {
        Some((KeyKind::Primary, i + kws.primary.len()))
    } else if ieq_check(v, i, &kws.unique) {
        Some((KeyKind::Unique, i + kws.unique.len()))
    } else if ieq_check(v, i, &kws.secondary) {
        Some((KeyKind::Secondary, i + kws.secondary.len()))
    } else if ieq_check(v, i, &kws.fulltext) {
        Some((KeyKind::Fulltext, i + kws.fulltext.len()))
    } else if ieq_check(v, i, &kws.constr) {
        Some((KeyKind::Foreign, i + kws.constr.len()))
    } else {
        None
    }
}

/// Executable form of [`constraint_tail`].
fn try_constraint_tail(s: &str, v: &Vec<char>, k: KeyKind, name: String, p: usize) -> (r: Option<
    (KeyKind, String, String, usize),
>)
    requires
        v@ == s@,
        p <= v@.len(),
    ensures
        match r {
            Some(m) => constraint_tail(v@, k, name@, p as int) == Some(
                (m.0, m.1@, m.2@, m.3 as int),
            ) && p < m.3 <= v@.len() && m.1@ == name@,
            None => constraint_tail(v@, k, name@, p as int) is None,
        },
{
    let n = v.len();
    if !(p < n && v[p] == '(') {
        return None;
    }
    match scan_paren_close(v, p + 1) {
        Some(q) => {
            if q > p + 1 {
                let def = String::from_str(s.substring_char(p, q + 1));
                Some((k, name, def, q + 1))
            } else {
                None
            }
        },
        None => None,
    }
}

/// Try the constraint pattern at position `i`.
fn try_constraint_at(s: &str, v: &Vec<char>, i: usize, kws: &Keywords) -> (r: Option<
    (KeyKind, String, String, usize),
>)
    requires
        v@ == s@,
        kws_wf(kws),
        i < v@.len(),
    ensures
        match r {
            Some(m) => constraint_match_at(v@, i as int) == Some((m.0, m.1@, m.2@, m.3 as int))
                && i < m.3 <= v@.len(),
            None => constraint_match_at(v@, i as int) is None,
        },
{
    let n = v.len();
    match kind_check(v, i, kws) {
        None => None,
        Some((k, after)) => {
            let w1 = scan_space(v, after);
            if w1 < n && v[w1] == '`' {
                let ne = scan_word(v, w1 + 1);
                if ne > w1 + 1 && ne < n && v[ne] == '`' {
                    let p = scan_space(v, ne + 1);
                    let name = String::from_str(s.substring_char(w1 + 1, ne));
                    try_constraint_tail(s, v, k, name, p)
                } else {
                    None
                }
            } else {
                let name = String::new();
                proof {
                    assert(name@ =~= Seq::<char>::empty());
                }
                try_constraint_tail(s, v, k, name, w1)
            }
        },
    }
}

/// Try the options pattern at position `i`.
fn try_options_at(s: &str, v: &Vec<char>, i: usize, kws: &Keywords) -> (r: Option<
    (String, String),
>)
    requires
        v@ == s@,
        kws_wf(kws),
        i < v@.len(),
    ensures
        match r {
            Some(m) => options_match_at(v@, i as int) == Some((m.0@, m.1@)),
            None => options_match_at(v@, i as int) is None,
        },
{
    let n = v.len();
    if !ieq_check(v, i, &kws.engine) {
        return None;
    }
    let e0 = i + kws.engine.len();
    let ee = scan_word(v, e0);
    if !(ee > e0) {
        return None;
    }
    let s1 = scan_space(v, ee);
    if !(s1 > ee && ieq_check(v, s1, &kws.defaultw)) {
        return None;
    }
    let d0 = s1 + kws.defaultw.len();
    let s2 = scan_space(v, d0);
    if !(s2 > d0 && ieq_check(v, s2, &kws.charset)) {
        return None;
    }
    let c0 = s2 + kws.charset.len();
    let ce = scan_word(v, c0);
    if !(ce > c0) {
        return None;
    }
    let engine = String::from_str(s.substring_char(e0, ee));
    let charset = String::from_str(s.substring_char(c0, ce));
    Some((engine, charset))
}

/// The column pass: every column match, folded into a dictionary.
fn scan_columns_dict(s: &str, v: &Vec<char>) -> (d: StrDict)
    requires
        v@ == s@,
    ensures
        d.wf(),
        d.entries_view() == fold_pairs(scan_columns(s@, 0)),
{
    let n = v.len();
    let mut d = StrDict::new();
    let ghost mut acc: Seq<(Seq<char>, Seq<char>)> = Seq::empty();
    let mut i: usize = 0;
    proof {
        assert(acc + scan_columns(v@, 0) =~= scan_columns(v@, 0));
    }
    while i < n
        invariant
            v@ == s@,
            n == v@.len(),
            i <= n,
            scan_columns(v@, 0) == acc + scan_columns(v@, i as int),
            d.wf(),
            d.entries_view() == fold_pairs(acc),
        decreases n - i,
    {
        match try_column_at(s, v, i) {
            Some((name, def, nx)) => {
                let ghost nm = name@;
                let ghost dv = def@;
                proof {
                    assert(scan_columns(v@, i as int) == seq![(nm, dv)] + scan_columns(
                        v@,
                        nx as int,
                    ));
                    lemma_fold_pairs_push(acc, (nm, dv));
                    assert(acc.push((nm, dv)) =~= acc + seq![(nm, dv)]);
                    assert((acc + seq![(nm, dv)]) + scan_columns(v@, nx as int) =~= acc + (seq![
                        (nm, dv),
                    ] + scan_columns(v@, nx as int)));
                }
                d.insert(name, def);
                proof {
                    acc = acc.push((nm, dv));
                }
                i = nx;
            },
            None => {
                proof {
                    assert(scan_columns(v@, i as int) == scan_columns(v@, i as int + 1));
                }
                i = i + 1;
            },
        }
    }
    proof {
        assert(scan_columns(v@, n as int) =~= Seq::<(Seq<char>, Seq<char>)>::empty());
        assert(acc + scan_columns(v@, n as int) =~= acc);
    }
    d
}

/// The constraint pass: every constraint match routed into the dictionary
/// of its category.
fn scan_constraint_dicts(s: &str, v: &Vec<char>, kws: &Keywords) -> (r: (
    StrDict,
    StrDict,
    StrDict,
    StrDict,
    StrDict,
))
    requires
        v@ == s@,
        kws_wf(kws),
    ensures
        r.0.wf() && r.1.wf() && r.2.wf() && r.3.wf() && r.4.wf(),
        r.0.entries_view() == fold_pairs(of_kind(scan_constraints(s@, 0), KeyKind::Primary)),
        r.1.entries_view() == fold_pairs(of_kind(scan_constraints(s@, 0), KeyKind::Unique)),
        r.2.entries_view() == fold_pairs(of_kind(scan_constraints(s@, 0), KeyKind::Secondary)),
        r.3.entries_view() == fold_pairs(of_kind(scan_constraints(s@, 0), KeyKind::Foreign)),
        r.4.entries_view() == fold_pairs(of_kind(scan_constraints(s@, 0), KeyKind::Fulltext)),
{
    let n = v.len();
    let mut primary = StrDict::new();
    let mut unique = StrDict::new();
    let mut secondary = StrDict::new();
    let mut foreign = StrDict::new();
    let mut fulltext = StrDict::new();
    let ghost mut acc: Seq<(KeyKind, Seq<char>, Seq<char>)> = Seq::empty();
    let mut i: usize = 0;
    proof {
        assert(acc + scan_constraints(v@, 0) =~= scan_constraints(v@, 0));
    }
    while i < n
        invariant
            v@ == s@,
            kws_wf(kws),
            n == v@.len(),
            i <= n,
            scan_constraints(v@, 0) == acc + scan_constraints(v@, i as int),
            primary.wf() && unique.wf() && secondary.wf() && foreign.wf() && fulltext.wf(),
            primary.entries_view() == fold_pairs(of_kind(acc, KeyKind::Primary)),
            unique.entries_view() == fold_pairs(of_kind(acc, KeyKind::Unique)),
            secondary.entries_view() == fold_pairs(of_kind(acc, KeyKind::Secondary)),
            foreign.entries_view() == fold_pairs(of_kind(acc, KeyKind::Foreign)),
            fulltext.entries_view() == fold_pairs(of_kind(acc, KeyKind::Fulltext)),
        decreases n - i,
    {
        match try_constraint_at(s, v, i, kws) {
            Some((k, name, def, nx)) => {
                let ghost nm = name@;
                let ghost dv = def@;
                let ghost c = (k, nm, dv);
                proof {
                    assert(scan_constraints(v@, i as int) == seq![c] + scan_constraints(
                        v@,
                        nx as int,
                    ));
                    assert(acc.push(c) =~= acc + seq![c]);
                    assert((acc + seq![c]) + scan_constraints(v@, nx as int) =~= acc + (seq![c]
                        + scan_constraints(v@, nx as int)));
                    lemma_of_kind_push(acc, c, KeyKind::Primary);
                    lemma_of_kind_push(acc, c, KeyKind::Unique);
                    lemma_of_kind_push(acc, c, KeyKind::Secondary);
                    lemma_of_kind_push(acc, c, KeyKind::Foreign);
                    lemma_of_kind_push(acc, c, KeyKind::Fulltext);
                    lemma_fold_pairs_push(of_kind(acc, k), (nm, dv));
                }
                match k {
                    KeyKind::Primary => primary.insert(name, def),
                    KeyKind::Unique => unique.insert(name, def),
                    KeyKind::Secondary => secondary.insert(name, def),
                    KeyKind::Foreign => foreign.insert(name, def),
                    KeyKind::Fulltext => fulltext.insert(name, def),
                }
                proof {
                    acc = acc.push(c);
                }
                i = nx;
            },
            None => {
                proof {
                    assert(scan_constraints(v@, i as int) == scan_constraints(v@, i as int + 1));
                }
                i = i + 1;
            },
        }
    }
    proof {
        assert(scan_constraints(v@, n as int) =~= Seq::<(KeyKind, Seq<char>, Seq<char>)>::empty());
        assert(acc + scan_constraints(v@, n as int) =~= acc);
    }
    (primary, unique, secondary, foreign, fulltext)
}

/// The options pass: the first engine/charset match, recorded as two
/// entries, or none at all.
fn scan_options_dict(s: &str, v: &Vec<char>, kws: &Keywords) -> (d: StrDict)
    requires
        v@ == s@,
        kws_wf(kws),
    ensures
        d.wf(),
        d.entries_view() == options_entries(find_options(s@, 0)),
{
    let n = v.len();
    let mut res: Option<(String, String)> = None;
    let mut i: usize = 0;
    while i < n
        invariant
            v@ == s@,
            kws_wf(kws),
            n == v@.len(),
            i <= n,
            res is Some ==> i == n,
            match res {
                None => find_options(v@, 0) == find_options(v@, i as int),
                Some(p) => find_options(v@, 0) == Some((p.0@, p.1@)),
            },
        decreases n - i,
    {
        match try_options_at(s, v, i, kws) {
            Some(m) => {
                proof {
                    assert(find_options(v@, i as int) == Some((m.0@, m.1@)));
                }
                res = Some(m);
                i = n;
            },
            None => {
                proof {
                    assert(find_options(v@, i as int) == find_options(v@, i as int + 1));
                }
                i = i + 1;
            },
        }
    }
    let mut d = StrDict::new();
    match res {
        Some((engine, charset)) => {
            let ghost ev = engine@;
            let ghost cv = charset@;
            d.insert(String::from_str("engine"), engine);
            proof {
                reveal_strlit("engine");
                reveal_strlit("charset");
                assert("engine"@.len() != "charset"@.len());
                assert(d.entries_view() =~= seq![("engine"@, ev)]);
                assert(!has_key(seq![("engine"@, ev)], "charset"@));
                lemma_upsert_absent(seq![("engine"@, ev)], "charset"@, cv);
            }
            d.insert(String::from_str("charset"), charset);
            proof {
                assert(d.entries_view() =~= seq![("engine"@, ev), ("charset"@, cv)]);
            }
        },
        None => {
            proof {
                assert(d.entries_view() =~= options_entries(find_options(v@, 0)));
            }
        },
    }
    proof {
        if n == 0 {
            assert(find_options(v@, 0) is None);
        }
    }
    d
}

/// Parse one `CREATE TABLE` statement into its structural definition.
/// Never fails: text a pattern does not match contributes nothing to the
/// category the pattern feeds.
pub fn parse_table_definition(sql: &str) -> (d: TableDefinition)
    ensures
        d.wf(),
        d.model() == parsed_def(sql@),
{
    let v = chars_of(sql);
    let kws = keywords();
    let columns = scan_columns_dict(sql, &v);
    let (primary, unique, keys, foreign, fulltext) = scan_constraint_dicts(sql, &v, &kws);
    let options = scan_options_dict(sql, &v, &kws);
    let d = TableDefinition { columns, primary, unique, keys, foreign, fulltext, options };
    proof {
        assert(d.model() == parsed_def(sql@));
    }
    d
}

} // verus!
