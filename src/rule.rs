//! Rule sets: which nftables sets the addresses of which domains go to.
use vstd::prelude::*;
use vstd::string::StrSliceExecFns;
use vstd::utf8::encode_utf8;

use crate::nft::{elem_type_of, family_of, opt_text, NftFamily, NftSetElemType};
use crate::text::{split, split_str, trim, trim_str};

verus! {

/// One nftables set that addresses are added to.
#[derive(Clone, Debug, Hash, PartialEq, Eq)]
pub struct NftSet {
    pub family: Option<NftFamily>,
    pub table: String,
    pub set_name: String,
    pub elem_type: NftSetElemType,
    pub timeout: Option<String>,
}

/// A set as plain values.
pub struct NftSetView {
    pub family: Option<NftFamily>,
    pub table: Seq<char>,
    pub set_name: Seq<char>,
    pub elem_type: NftSetElemType,
    pub timeout: Option<Seq<char>>,
}

impl View for NftSet {
    type V = NftSetView;

    open spec fn view(&self) -> NftSetView {
        NftSetView {
            family: self.family,
            table: self.table@,
            set_name: self.set_name@,
            elem_type: self.elem_type,
            timeout: opt_text(self.timeout),
        }
    }
}

/// Why a rule line was refused.
#[derive(Clone, Copy, Debug, PartialEq, Eq, Structural)]
pub enum RuleError {
    MissingFamily,
    IllegalFamily,
    MissingTable,
    MissingSet,
    MissingElemType,
    IllegalElemType,
}

/// ASCII lower case of a byte.
pub open spec fn lower_byte(b: u8) -> u8 {
    if 65 <= b && b <= 90 {
        (b + 32) as u8
    } else {
        b
    }
}

/// The key of a domain name or pattern: its bytes in ASCII lower case,
/// without one trailing dot.
pub open spec fn domain_key(name: Seq<u8>) -> Seq<u8> {
    let l = name.map_values(|b: u8| lower_byte(b));
    if l.len() > 0 && l.last() == 46 {
        l.drop_last()
    } else {
        l
    }
}

/// The columns of a rule line, each without surrounding white space.
pub open spec fn columns(line: Seq<char>) -> Seq<Seq<char>> {
    split(line, ',').map_values(|p: Seq<char>| trim(p))
}

/// What a rule line `<domain>,<family>,<table>,<set>,<type>[,<timeout>]`
/// says: the key of its domain and the set, or why it is refused.
pub open spec fn parse_rule(line: Seq<char>) -> Result<(Seq<u8>, NftSetView), RuleError> {
    let c = columns(line);
    if c.len() < 2 {
        Err(RuleError::MissingFamily)
    } else if c[1].len() > 0 && family_of(c[1]) is None {
        Err(RuleError::IllegalFamily)
    } else if c.len() < 3 {
        Err(RuleError::MissingTable)
    } else if c.len() < 4 {
        Err(RuleError::MissingSet)
    } else if c.len() < 5 {
        Err(RuleError::MissingElemType)
    } else if elem_type_of(c[4]) is None {
        Err(RuleError::IllegalElemType)
    } else {
        Ok(
            (
                domain_key(encode_utf8(c[0])),
                NftSetView {
                    family: if c[1].len() == 0 {
                        None
                    } else {
                        family_of(c[1])
                    },
                    table: c[2],
                    set_name: c[3],
                    elem_type: elem_type_of(c[4]).unwrap(),
                    timeout: if c.len() > 5 && c[5].len() > 0 {
                        Some(c[5])
                    } else {
                        None
                    },
                },
            ),
        )
    }
}

/// The keys tried for a name `d`, in order, each once: the empty key, then
/// each non-empty suffix that follows a dot, shortest first, then `d` itself
/// when it is not empty.
pub open spec fn match_keys(d: Seq<u8>) -> Seq<Seq<u8>> {
    seq![Seq::empty()] + dot_suffixes(d, 0) + if d.len() > 0 {
        seq![d]
    } else {
        Seq::empty()
    }
}

/// The non-empty suffixes of `d` that follow a dot at a position from `n`
/// on, the shortest first.
pub open spec fn dot_suffixes(d: Seq<u8>, n: int) -> Seq<Seq<u8>>
    decreases d.len() - n,
{
    if n < 0 || n >= d.len() {
        Seq::empty()
    } else {
        let rest = dot_suffixes(d, n + 1);
        if d[n] == 46 && n + 1 < d.len() {
            rest.push(d.subrange(n + 1, d.len() as int))
        } else {
            rest
        }
    }
}

/// A rule set as plain values: the distinct sets, the index from domain key
/// to the positions of its sets (in the order of the rules), and the number
/// of rules.
pub struct RuleSetView {
    pub targets: Seq<NftSetView>,
    pub index: Map<Seq<u8>, Seq<int>>,
    pub count: nat,
}

impl RuleSetView {
    /// The rule set without rules.
    pub open spec fn empty() -> RuleSetView {
        RuleSetView { targets: Seq::empty(), index: Map::empty(), count: 0 }
    }

    /// Sets are distinct, and the index names sets that exist.
    pub open spec fn wf(self) -> bool {
        &&& forall|i: int, j: int|
            0 <= i < j < self.targets.len() ==> self.targets[i] != self.targets[j]
        &&& forall|k: Seq<u8>, i: int|
            self.index.contains_key(k) && 0 <= i < self.index[k].len() ==> 0 <= #[trigger] self.index[k][i]
                < self.targets.len()
    }

    /// The positions of the sets that the rules of `key` name.
    pub open spec fn lookup(self, key: Seq<u8>) -> Seq<int> {
        if self.index.contains_key(key) {
            self.index[key]
        } else {
            Seq::empty()
        }
    }

    /// The position of `s` among the sets, or the next free position.
    pub open spec fn target_id(self, s: NftSetView) -> int {
        if exists|i: int| 0 <= i < self.targets.len() && self.targets[i] == s {
            choose|i: int| 0 <= i < self.targets.len() && self.targets[i] == s
        } else {
            self.targets.len() as int
        }
    }

    /// The rule set with one more rule: `key` names set `s`. A set equal to
    /// one already there is shared.
    pub open spec fn insert_rule(self, key: Seq<u8>, s: NftSetView) -> RuleSetView {
        let id = self.target_id(s);
        RuleSetView {
            targets: if id < self.targets.len() {
                self.targets
            } else {
                self.targets.push(s)
            },
            index: self.index.insert(key, self.lookup(key).push(id)),
            count: self.count + 1,
        }
    }

    /// The positions of the sets named under each key, key after key.
    pub open spec fn gather(self, keys: Seq<Seq<u8>>) -> Seq<int>
        decreases keys.len(),
    {
        if keys.len() == 0 {
            Seq::empty()
        } else {
            self.gather(keys.drop_last()) + self.lookup(keys.last())
        }
    }

    /// The positions of the sets that match a name given by its bytes.
    pub open spec fn matched(self, name: Seq<u8>) -> Seq<int> {
        self.gather(match_keys(domain_key(name)))
    }
}

/// Whether a trimmed line is skipped: blank, or a comment starting with `#`
/// or `//`.
pub open spec fn skipped(t: Seq<char>) -> bool {
    t.len() == 0 || t[0] == '#' || (t.len() >= 2 && t[0] == '/' && t[1] == '/')
}

/// The rule set `m` with the rules of `lines` added in order, or the error
/// of the first line that is refused.
pub open spec fn load_lines(m: RuleSetView, lines: Seq<Seq<char>>) -> Result<RuleSetView, RuleError>
    decreases lines.len(),
{
    if lines.len() == 0 {
        Ok(m)
    } else {
        match load_lines(m, lines.drop_last()) {
            Err(e) => Err(e),
            Ok(m2) => {
                let t = trim(lines.last());
                if skipped(t) {
                    Ok(m2)
                } else {
                    match parse_rule(t) {
                        Ok((k, s)) => Ok(m2.insert_rule(k, s)),
                        Err(e) => Err(e),
                    }
                }
            },
        }
    }
}

/// The rule set that a rule file's text describes.
pub open spec fn rules_of(text: Seq<char>) -> Result<RuleSetView, RuleError> {
    load_lines(RuleSetView::empty(), split(text, '\n'))
}

/// The rules of one domain key.
struct Rule {
    suffix: Vec<u8>,
    targets: Vec<usize>,
}

/// Rules read from a rule file, indexed by domain key.
pub struct RuleSet {
    sets: Vec<NftSet>,
    rules: Vec<Rule>,
    count: usize,
    index: Ghost<Map<Seq<u8>, Seq<int>>>,
}

/// `out` holds the sets at positions `ids`, in order.
pub open spec fn shows(out: Seq<&NftSet>, targets: Seq<NftSetView>, ids: Seq<int>) -> bool {
    &&& out.len() == ids.len()
    &&& forall|i: int|
        0 <= i < out.len() ==> 0 <= #[trigger] ids[i] < targets.len() && out[i]@ == targets[ids[i]]
}

/// Positions as integers.
pub open spec fn ids(v: Seq<usize>) -> Seq<int> {
    v.map_values(|t: usize| t as int)
}


/// Whether two sets are equal.
fn same_set(a: &NftSet, b: &NftSet) -> (r: bool)
    ensures
        r == (a@ == b@),
{
    let fam = match (a.family, b.family) {
        (None, None) => true,
        (Some(x), Some(y)) => x == y,
        _ => false,
    };
    let timeout = match (&a.timeout, &b.timeout) {
        (None, None) => true,
        (Some(x), Some(y)) => *x == *y,
        _ => false,
    };
    fam && a.table == b.table && a.set_name == b.set_name && a.elem_type == b.elem_type && timeout
}

/// Whether `a` equals `b[lo..hi]`.
fn bytes_eq(a: &Vec<u8>, b: &Vec<u8>, lo: usize, hi: usize) -> (r: bool)
    requires
        lo <= hi <= b@.len(),
    ensures
        r == (a@ == b@.subrange(lo as int, hi as int)),
{
    if a.len() != hi - lo {
        return false;
    }
    let mut i: usize = 0;
    while i < a.len()
        invariant
            a@.len() == hi - lo,
            lo <= hi <= b@.len(),
            i <= a@.len(),
            forall|j: int| 0 <= j < i ==> a@[j] == b@[lo + j],
        decreases a@.len() - i,
    {
        if a[i] != b[lo + i] {
            return false;
        }
        i += 1;
    }
    assert(a@ =~= b@.subrange(lo as int, hi as int));
    true
}

/// The key of a domain name or pattern given by its bytes.
fn key_of(name: &[u8]) -> (r: Vec<u8>)
    ensures
        r@ == domain_key(name@),
{
    let mut out: Vec<u8> = Vec::new();
    let mut i: usize = 0;
    while i < name.len()
        invariant
            i <= name@.len(),
            out@ =~= name@.subrange(0, i as int).map_values(|b: u8| lower_byte(b)),
        decreases name@.len() - i,
    {
        let b = name[i];
        out.push(
            if 65 <= b && b <= 90 {
                b + 32
            } else {
                b
            },
        );
        i += 1;
    }
    assert(name@.subrange(0, name@.len() as int) =~= name@);
    let n = out.len();
    if n > 0 && out[n - 1] == 46 {
        out.pop();
        assert(out@ =~= domain_key(name@));
    }
    out
}

impl View for RuleSet {
    type V = RuleSetView;

    closed spec fn view(&self) -> RuleSetView {
        RuleSetView {
            targets: self.sets@.map_values(|s: NftSet| s@),
            index: self.index@,
            count: self.count as nat,
        }
    }
}

impl RuleSet {
    /// The internal index agrees with the view.
    pub closed spec fn inv(&self) -> bool {
        &&& self@.wf()
        &&& forall|j: int|
            0 <= j < self.rules@.len() ==> {
                &&& self.index@.contains_key(#[trigger] self.rules@[j].suffix@)
                &&& self.index@[self.rules@[j].suffix@] == ids(self.rules@[j].targets@)
            }
        &&& forall|k: Seq<u8>|
            #[trigger] self.index@.contains_key(k) ==> exists|j: int|
                0 <= j < self.rules@.len() && self.rules@[j].suffix@ == k
        &&& forall|i: int, j: int|
            0 <= i < j < self.rules@.len() ==> self.rules@[i].suffix@ != self.rules@[j].suffix@
    }

    /// A consistent rule set's view is well formed: its sets are distinct,
    /// and its index names sets that exist.
    pub proof fn lemma_view_wf(&self)
        requires
            self.inv(),
        ensures
            self@.wf(),
    {
    }

    /// A rule set without rules.
    pub fn new() -> (r: RuleSet)
        ensures
            r.inv(),
            r@ == RuleSetView::empty(),
    {
        let r = RuleSet { sets: Vec::new(), rules: Vec::new(), count: 0, index: Ghost(Map::empty()) };
        assert(r@.targets =~= Seq::<NftSetView>::empty());
        r
    }

    /// The position of a set equal to `set`, if there is one.
    fn find_target(&self, set: &NftSet) -> (r: Option<usize>)
        requires
            self.inv(),
        ensures
            match r {
                Some(i) => i < self.sets@.len() && self@.target_id(set@) == i,
                None => self@.target_id(set@) == self.sets@.len(),
            },
    {
        let mut i: usize = 0;
        while i < self.sets.len()
            invariant
                self.inv(),
                i <= self.sets@.len(),
                forall|j: int| 0 <= j < i ==> self@.targets[j] != set@,
            decreases self.sets@.len() - i,
        {
            if same_set(&self.sets[i], set) {
                assert(self@.targets[i as int] == set@);
                let ghost c = choose|j: int| 0 <= j < self@.targets.len() && self@.targets[j] == set@;
                assert(self@.wf());
                assert(c == i) by {
                    if c < i {
                        assert(self@.targets[c] != self@.targets[i as int]);
                    } else if c > i {
                        assert(self@.targets[i as int] != self@.targets[c]);
                    }
                }
                return Some(i);
            }
            i += 1;
        }
        None
    }

    /// The position of the rules whose key is `d[lo..hi]`, if there are any.
    fn find_rule(&self, d: &Vec<u8>, lo: usize, hi: usize) -> (r: Option<usize>)
        requires
            self.inv(),
            lo <= hi <= d@.len(),
        ensures
            match r {
                Some(j) => j < self.rules@.len() && self.rules@[j as int].suffix@ == d@.subrange(
                    lo as int,
                    hi as int,
                ),
                None => !self@.index.contains_key(d@.subrange(lo as int, hi as int)),
            },
    {
        let mut j: usize = 0;
        while j < self.rules.len()
            invariant
                self.inv(),
                j <= self.rules@.len(),
                lo <= hi <= d@.len(),
                forall|i: int| 0 <= i < j ==> self.rules@[i].suffix@ != d@.subrange(lo as int, hi as int),
            decreases self.rules@.len() - j,
        {
            if bytes_eq(&self.rules[j].suffix, d, lo, hi) {
                return Some(j);
            }
            j += 1;
        }
        None
    }

    /// Adds a rule: `key` names `set`.
    fn insert(&mut self, key: Vec<u8>, set: NftSet)
        requires
            old(self).inv(),
            old(self)@.count < usize::MAX,
        ensures
            final(self).inv(),
            final(self)@ == old(self)@.insert_rule(key@, set@),
    {
        let ghost k = key@;
        let ghost s = set@;
        let ghost before = self@;
        let ghost old_rules = self.rules@;
        let n = key.len();
        let slot = self.find_rule(&key, 0, n);
        assert(key@.subrange(0, n as int) =~= k);
        let id = match self.find_target(&set) {
            Some(i) => i,
            None => {
                self.sets.push(set);
                assert(self.sets@.map_values(|x: NftSet| x@) =~= before.targets.push(s));
                self.sets.len() - 1
            },
        };
        let ghost after = before.insert_rule(k, s);
        assert(self@.targets == after.targets);
        assert(id == before.target_id(s));
        self.count = self.count + 1;
        match slot {
            Some(j) => {
                let mut rule = self.rules.remove(j);
                rule.targets.push(id);
                self.rules.insert(j, rule);
                assert(ids(self.rules@[j as int].targets@) =~= before.lookup(k).push(id as int));
                assert(forall|i: int|
                    0 <= i < old_rules.len() && i != j ==> self.rules@[i] == old_rules[i]);
                assert(self.rules@.len() == old_rules.len());
                self.index = Ghost(self.index@.insert(k, before.lookup(k).push(id as int)));
                assert forall|i: int| 0 <= i < self.rules@.len() implies {
                    &&& self.index@.contains_key(#[trigger] self.rules@[i].suffix@)
                    &&& self.index@[self.rules@[i].suffix@] == ids(self.rules@[i].targets@)
                } by {
                    if i != j {
                        assert(old_rules[i].suffix@ != old_rules[j as int].suffix@);
                    }
                }
                assert forall|q: Seq<u8>| #[trigger] self.index@.contains_key(q) implies exists|i: int|
                    0 <= i < self.rules@.len() && self.rules@[i].suffix@ == q by {
                    if q != k {
                        let i = choose|i: int| 0 <= i < old_rules.len() && old_rules[i].suffix@ == q;
                        assert(self.rules@[i].suffix@ == q);
                    } else {
                        assert(self.rules@[j as int].suffix@ == q);
                    }
                }
            },
            None => {
                self.rules.push(Rule { suffix: key, targets: vec![id] });
                assert(ids(self.rules@.last().targets@) =~= before.lookup(k).push(id as int));
                assert(forall|i: int| 0 <= i < old_rules.len() ==> self.rules@[i] == old_rules[i]);
                assert(forall|i: int| 0 <= i < old_rules.len() ==> old_rules[i].suffix@ != k);
                self.index = Ghost(self.index@.insert(k, before.lookup(k).push(id as int)));
                assert forall|q: Seq<u8>| #[trigger] self.index@.contains_key(q) implies exists|i: int|
                    0 <= i < self.rules@.len() && self.rules@[i].suffix@ == q by {
                    if q != k {
                        let i = choose|i: int| 0 <= i < old_rules.len() && old_rules[i].suffix@ == q;
                        assert(self.rules@[i].suffix@ == q);
                    } else {
                        assert(self.rules@[old_rules.len() as int].suffix@ == q);
                    }
                }
            },
        }
        assert(self@.index =~= after.index);
        assert(self@ == after);
        assert(self@.wf());
    }

    /// Reads one rule line `<domain>,<family>,<table>,<set>,<type>[,<timeout>]`
    /// and adds it. Sets equal to one already there are shared.
    pub fn add(&mut self, line: &str) -> (r: Result<(), RuleError>)
        requires
            old(self).inv(),
            old(self)@.count < usize::MAX,
        ensures
            final(self).inv(),
            match parse_rule(line@) {
                Ok((k, s)) => r is Ok && final(self)@ == old(self)@.insert_rule(k, s),
                Err(e) => r == Err::<(), RuleError>(e) && final(self)@ == old(self)@,
            },
    {
        let raw = split_str(line, ',');
        let ghost c = columns(line@);
        assert(c.len() == raw@.len());
        assert(forall|i: int| 0 <= i < raw@.len() ==> c[i] == trim(raw@[i]@));
        if raw.len() < 2 {
            return Err(RuleError::MissingFamily);
        }
        let fam_col = trim_str(raw[1]);
        let family = if fam_col.is_empty() {
            None
        } else {
            match NftFamily::from_str(fam_col) {
                Ok(f) => Some(f),
                Err(_) => {
                    return Err(RuleError::IllegalFamily);
                },
            }
        };
        if raw.len() < 3 {
            return Err(RuleError::MissingTable);
        }
        if raw.len() < 4 {
            return Err(RuleError::MissingSet);
        }
        if raw.len() < 5 {
            return Err(RuleError::MissingElemType);
        }
        let elem_type = match NftSetElemType::from_str(trim_str(raw[4])) {
            Ok(t) => t,
            Err(_) => {
                return Err(RuleError::IllegalElemType);
            },
        };
        let timeout = if raw.len() > 5 {
            let t = trim_str(raw[5]);
            if t.is_empty() {
                None
            } else {
                Some(t.to_owned())
            }
        } else {
            None
        };
        let set = NftSet {
            family,
            table: trim_str(raw[2]).to_owned(),
            set_name: trim_str(raw[3]).to_owned(),
            elem_type,
            timeout,
        };
        let key = key_of(trim_str(raw[0]).as_bytes());
        self.insert(key, set);
        Ok(())
    }

    /// Appends the sets of the rules whose key is `d[lo..hi]`.
    fn push_matches<'a>(
        &'a self,
        out: &mut Vec<&'a NftSet>,
        d: &Vec<u8>,
        lo: usize,
        hi: usize,
        pre: Ghost<Seq<int>>,
    )
        requires
            self.inv(),
            lo <= hi <= d@.len(),
            shows(old(out)@, self@.targets, pre@),
        ensures
            shows(final(out)@, self@.targets, pre@ + self@.lookup(d@.subrange(lo as int, hi as int))),
    {
        let ghost key = d@.subrange(lo as int, hi as int);
        match self.find_rule(d, lo, hi) {
            None => {
                assert(pre@ + self@.lookup(key) =~= pre@);
            },
            Some(j) => {
                let rule = &self.rules[j];
                assert(self@.index[key] == ids(rule.targets@));
                let mut t: usize = 0;
                while t < rule.targets.len()
                    invariant
                        self.inv(),
                        j < self.rules@.len(),
                        *rule == self.rules@[j as int],
                        self@.index.contains_key(key),
                        self@.index[key] == ids(rule.targets@),
                        t <= rule.targets@.len(),
                        shows(out@, self@.targets, pre@ + ids(rule.targets@).subrange(0, t as int)),
                    decreases rule.targets@.len() - t,
                {
                    let id = rule.targets[t];
                    assert(self@.index[key][t as int] == id as int);
                    out.push(&self.sets[id]);
                    assert(pre@ + ids(rule.targets@).subrange(0, t + 1) =~= (pre@ + ids(
                        rule.targets@,
                    ).subrange(0, t as int)).push(id as int));
                    t += 1;
                }
                assert(ids(rule.targets@).subrange(0, t as int) =~= self@.lookup(key));
            },
        }
    }

    /// The sets of every rule whose domain matches `domain`: the rules of the
    /// empty domain, those of each non-empty suffix of `domain` that follows
    /// a dot (shortest first), and those of `domain` itself. Each key is
    /// looked up once. Case is ignored, and so is one trailing dot.
    pub fn match_all<'a>(&'a self, domain: &str) -> (r: Vec<&'a NftSet>)
        requires
            self.inv(),
        ensures
            shows(r@, self@.targets, self@.matched(encode_utf8(domain@))),
    {
        let d = key_of(domain.as_bytes());
        let end = d.len();
        let mut out: Vec<&'a NftSet> = Vec::new();
        let ghost e = Seq::<u8>::empty();
        assert(d@.subrange(0, 0) =~= e);
        self.push_matches(&mut out, &d, 0, 0, Ghost(Seq::empty()));
        assert(dot_suffixes(d@, end as int) =~= Seq::<Seq<u8>>::empty());
        assert(seq![e] + dot_suffixes(d@, end as int) =~= seq![e]);
        assert(seq![e].drop_last() =~= Seq::<Seq<u8>>::empty());
        assert(seq![e].len() == 1 && seq![e].last() == e);
        assert(self@.gather(Seq::<Seq<u8>>::empty()) =~= Seq::<int>::empty());
        assert(self@.gather(seq![e]) == self@.gather(seq![e].drop_last()) + self@.lookup(e));
        assert(Seq::<int>::empty() + self@.lookup(e) =~= self@.gather(seq![e]));
        let mut n: usize = end;
        while n > 0
            invariant
                self.inv(),
                n <= end,
                end == d@.len(),
                shows(out@, self@.targets, self@.gather(seq![e] + dot_suffixes(d@, n as int))),
            decreases n,
        {
            n -= 1;
            let ghost before = seq![e] + dot_suffixes(d@, n + 1);
            if d[n] == 46 && n + 1 < end {
                self.push_matches(&mut out, &d, n + 1, end, Ghost(self@.gather(before)));
                assert((seq![e] + dot_suffixes(d@, n as int)).drop_last() =~= before);
            } else {
                assert(seq![e] + dot_suffixes(d@, n as int) =~= before);
            }
        }
        let ghost before = seq![e] + dot_suffixes(d@, 0);
        if end > 0 {
            self.push_matches(&mut out, &d, 0, end, Ghost(self@.gather(before)));
            assert(d@.subrange(0, end as int) =~= d@);
            assert(match_keys(d@).drop_last() =~= before);
        } else {
            assert(match_keys(d@) =~= before);
        }
        out
    }

    /// Reads the rules of a rule file's text, one per line. Blank lines and
    /// lines starting with `#` or `//` are skipped; the first line that is
    /// refused makes the whole text refused.
    pub fn from_text(text: &str) -> (r: Result<RuleSet, RuleError>)
        ensures
            match rules_of(text@) {
                Ok(m) => r is Ok && r->Ok_0.inv() && r->Ok_0@ == m,
                Err(e) => r == Err::<RuleSet, RuleError>(e),
            },
    {
        let lines = split_str(text, '\n');
        let ghost all = split(text@, '\n');
        let mut rs = RuleSet::new();
        let mut i: usize = 0;
        assert(all.subrange(0, 0) =~= Seq::<Seq<char>>::empty());
        while i < lines.len()
            invariant
                i <= lines@.len(),
                all == split(text@, '\n'),
                lines@.len() == all.len(),
                forall|j: int| 0 <= j < lines@.len() ==> (#[trigger] lines@[j])@ == all[j],
                rs.inv(),
                rs@.count <= i,
                load_lines(RuleSetView::empty(), all.subrange(0, i as int)) == Ok::<
                    RuleSetView,
                    RuleError,
                >(rs@),
            decreases lines@.len() - i,
        {
            assert(all.subrange(0, i + 1).drop_last() =~= all.subrange(0, i as int));
            let line = trim_str(lines[i]);
            let n = line.unicode_len();
            let skip = n == 0 || line.get_char(0) == '#' || (n >= 2 && line.get_char(0) == '/'
                && line.get_char(1) == '/');
            assert(skip == skipped(line@));
            assert(all.subrange(0, i + 1).last() == all[i as int]);
            if !skip {
                match rs.add(line) {
                    Ok(()) => {},
                    Err(e) => {
                        proof {
                            lemma_load_error_stays(all, i + 1, e);
                            assert(all.subrange(0, all.len() as int) =~= all);
                        }
                        return Err(e);
                    },
                }
            }
            i += 1;
        }
        assert(all.subrange(0, i as int) =~= all);
        Ok(rs)
    }

    /// The number of rules.
    pub fn len(&self) -> (r: usize)
        ensures
            r == self@.count,
    {
        self.count
    }

    /// The number of distinct sets.
    pub fn target_count(&self) -> (r: usize)
        ensures
            r == self@.targets.len(),
    {
        self.sets.len()
    }
}

/// Once a line is refused, loading more lines gives the same error.
proof fn lemma_load_error_stays(lines: Seq<Seq<char>>, n: int, e: RuleError)
    requires
        0 <= n <= lines.len(),
        load_lines(RuleSetView::empty(), lines.subrange(0, n)) == Err::<RuleSetView, RuleError>(e),
    ensures
        load_lines(RuleSetView::empty(), lines) == Err::<RuleSetView, RuleError>(e),
    decreases lines.len() - n,
{
    if n < lines.len() {
        assert(lines.subrange(0, n + 1).drop_last() =~= lines.subrange(0, n));
        lemma_load_error_stays(lines, n + 1, e);
    } else {
        assert(lines.subrange(0, n) =~= lines);
    }
}

/// The suffixes from position `n` on are non-empty, shorter than what follows
/// `n`, and grow in length along the sequence.
proof fn lemma_dot_suffixes_grow(d: Seq<u8>, n: int)
    requires
        0 <= n,
    ensures
        forall|i: int|
            0 <= i < dot_suffixes(d, n).len() ==> 0 < (#[trigger] dot_suffixes(d, n)[i]).len() < d.len()
                - n,
        forall|i: int, j: int|
            0 <= i < j < dot_suffixes(d, n).len() ==> dot_suffixes(d, n)[i].len() < dot_suffixes(
                d,
                n,
            )[j].len(),
    decreases d.len() - n,
{
    if n < d.len() {
        lemma_dot_suffixes_grow(d, n + 1);
        let rest = dot_suffixes(d, n + 1);
        if d[n] == 46 && n + 1 < d.len() {
            let x = d.subrange(n + 1, d.len() as int);
            assert(dot_suffixes(d, n) == rest.push(x));
            assert(x.len() == d.len() - n - 1);
            assert forall|i: int| 0 <= i < rest.len() implies rest[i].len() < x.len() by {
                assert(0 < rest[i].len() < d.len() - (n + 1));
            }
        } else {
            assert(dot_suffixes(d, n) == rest);
        }
    }
}

/// Each key is tried once: the keys tried for a name are pairwise distinct,
/// so a rule adds its sets at most once to a match.
pub proof fn lemma_match_keys_distinct(d: Seq<u8>)
    ensures
        forall|i: int, j: int|
            0 <= i < j < match_keys(d).len() ==> match_keys(d)[i] != match_keys(d)[j],
{
    lemma_dot_suffixes_grow(d, 0);
    let ks = match_keys(d);
    let ds = dot_suffixes(d, 0);
    assert forall|i: int, j: int| 0 <= i < j < ks.len() implies ks[i] != ks[j] by {
        if i == 0 {
            if j <= ds.len() {
                assert(ks[j] == ds[j - 1]);
            } else {
                assert(ks[j] == d);
            }
        } else if j <= ds.len() {
            assert(ks[i] == ds[i - 1] && ks[j] == ds[j - 1]);
        } else {
            assert(ks[i] == ds[i - 1] && ks[j] == d);
        }
        assert(ks[i].len() != ks[j].len());
    }
}

/// Adding a rule keeps a rule set well formed, and the rule's set sits at
/// the position that `target_id` gives.
pub proof fn lemma_insert_rule_wf(m: RuleSetView, k: Seq<u8>, s: NftSetView)
    requires
        m.wf(),
    ensures
        m.insert_rule(k, s).wf(),
        0 <= m.target_id(s) < m.insert_rule(k, s).targets.len(),
        m.insert_rule(k, s).targets[m.target_id(s)] == s,
        m.target_id(s) < m.targets.len() <==> exists|i: int|
            0 <= i < m.targets.len() && m.targets[i] == s,
        m.insert_rule(k, s).targets.len() == m.targets.len() + if exists|i: int|
            0 <= i < m.targets.len() && m.targets[i] == s {
            0int
        } else {
            1int
        },
{
    let m1 = m.insert_rule(k, s);
    let id = m.target_id(s);
    assert forall|q: Seq<u8>, i: int|
        m1.index.contains_key(q) && 0 <= i < m1.index[q].len() implies 0 <= #[trigger] m1.index[q][i]
        < m1.targets.len() by {
        if q != k {
            assert(m.index.contains_key(q) && m.index[q][i] == m1.index[q][i]);
        } else if i < m.lookup(k).len() {
            assert(m.index[k][i] == m1.index[q][i]);
        }
    }
}

/// Rules that name equal sets share one set: the second rule adds no set,
/// and its entry gives the same position as the first rule's.
pub proof fn lemma_equal_sets_shared(m: RuleSetView, k1: Seq<u8>, k2: Seq<u8>, s: NftSetView)
    requires
        m.wf(),
    ensures
        ({
            let m1 = m.insert_rule(k1, s);
            let m2 = m1.insert_rule(k2, s);
            &&& m2.wf()
            &&& m2.targets == m1.targets
            &&& m2.lookup(k2).last() == m1.lookup(k1).last()
            &&& m2.targets[m2.lookup(k2).last()] == s
        }),
{
    let m1 = m.insert_rule(k1, s);
    lemma_insert_rule_wf(m, k1, s);
    lemma_insert_rule_wf(m1, k2, s);
    let id1 = m.target_id(s);
    let id2 = m1.target_id(s);
    assert(m1.targets[id1] == s);
    assert(id2 == id1) by {
        let c = choose|i: int| 0 <= i < m1.targets.len() && m1.targets[i] == s;
        assert(m1.targets[c] == s);
        if c < id1 {
            assert(m1.targets[c] != m1.targets[id1]);
        } else if c > id1 {
            assert(m1.targets[id1] != m1.targets[c]);
        }
    }
}

/// Matching ignores ASCII case: names equal up to ASCII case match the same
/// sets.
pub proof fn lemma_match_ignores_case(m: RuleSetView, a: Seq<u8>, b: Seq<u8>)
    requires
        a.map_values(|x: u8| lower_byte(x)) == b.map_values(|x: u8| lower_byte(x)),
    ensures
        m.matched(a) == m.matched(b),
{
}

/// Matching ignores one trailing dot: a name that does not end in a dot
/// matches the same sets as the name with a dot appended.
pub proof fn lemma_match_trailing_dot(m: RuleSetView, a: Seq<u8>)
    requires
        a.len() == 0 || a.last() != 46,
    ensures
        m.matched(a.push(46)) == m.matched(a),
{
    let la = a.map_values(|x: u8| lower_byte(x));
    let ld = a.push(46).map_values(|x: u8| lower_byte(x));
    assert(ld.drop_last() =~= la);
    assert(domain_key(a.push(46)) == la);
    assert(domain_key(a) == la);
}

} // verus!
