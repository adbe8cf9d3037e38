//! The connection policy: which hosts and ports may be reached, and which
//! addresses count as being outside.
//!
//! A policy is written as a comma-separated list of `host:port`, `host:*`, plain
//! `host` (any port) or `*` (anything). An empty list denies everything.

use crate::ipv4::Ipv4Addr;
use crate::text::{char_range, chars_of, find_last, is_space, last_index, law_digits_are_digits, law_last_index, law_unsigned_reads_digits, lower, lowered, parse_unsigned, same_chars, same_ignoring_case, split, split_at, text_of, to_decimal, trim, trim_end, trim_start, trimmed, unsigned, views};
use vstd::prelude::*;

verus! {

/// One entry of a policy.
#[derive(Debug, Clone)]
pub enum AllowEntry {
    /// Any host and port.
    Anything,
    /// One host; without a port, any port of it.
    Host { host: Vec<char>, port: Option<u16> },
}

/// A policy. The empty one denies everything.
#[derive(Debug, Clone)]
pub struct Allowlist {
    pub entries: Vec<AllowEntry>,
}

/// What one entry says.
pub enum Rule {
    Anything,
    Host { host: Seq<char>, port: Option<u16> },
}

impl View for AllowEntry {
    type V = Rule;

    open spec fn view(&self) -> Rule {
        match *self {
            AllowEntry::Anything => Rule::Anything,
            AllowEntry::Host { host, port } => Rule::Host { host: host@, port },
        }
    }
}

impl View for Allowlist {
    type V = Seq<Rule>;

    open spec fn view(&self) -> Seq<Rule> {
        Seq::new(self.entries@.len(), |i: int| self.entries@[i]@)
    }
}

/// The port that the part after the colon stands for: `*`, and anything that is
/// no port number, stands for every port.
pub open spec fn port_of(s: Seq<char>) -> Option<u16> {
    if s == seq!['*'] {
        None
    } else {
        match unsigned(s, 0xFFFF) {
            Some(n) => Some(n as u16),
            None => None,
        }
    }
}

/// The rule that a (trimmed) entry stands for. The last colon separates the port.
pub open spec fn rule_of(s: Seq<char>) -> Rule {
    if s == seq!['*'] {
        Rule::Anything
    } else {
        match last_index(s, ':') {
            Some(i) => Rule::Host { host: s.take(i), port: port_of(s.skip(i + 1)) },
            None => Rule::Host { host: s, port: None },
        }
    }
}

/// The rules of a list of entries; blank entries are dropped.
pub open spec fn rules_of(pieces: Seq<Seq<char>>) -> Seq<Rule>
    decreases pieces.len(),
{
    if pieces.len() == 0 {
        Seq::empty()
    } else {
        let before = rules_of(pieces.drop_last());
        let entry = trim(pieces.last());
        if entry.len() == 0 {
            before
        } else {
            before.push(rule_of(entry))
        }
    }
}

/// Whether a rule lets `host` be reached on `port`. Case does not matter.
pub open spec fn rule_permits(rule: Rule, host: Seq<char>, port: u16) -> bool {
    match rule {
        Rule::Anything => true,
        Rule::Host { host: h, port: p } => lower(h) == lower(host) && (p is None || p == Some(port)),
    }
}

/// Whether a rule lets `host` be reached on some port.
pub open spec fn rule_permits_host(rule: Rule, host: Seq<char>) -> bool {
    match rule {
        Rule::Anything => true,
        Rule::Host { host: h, .. } => lower(h) == lower(host),
    }
}

/// Whether a policy lets `host` be reached on `port`: one rule is enough.
pub open spec fn permitted(rules: Seq<Rule>, host: Seq<char>, port: u16) -> bool {
    exists|i: int| 0 <= i < rules.len() && rule_permits(#[trigger] rules[i], host, port)
}

/// Whether a policy lets `host` be reached on some port.
pub open spec fn host_permitted(rules: Seq<Rule>, host: Seq<char>) -> bool {
    exists|i: int| 0 <= i < rules.len() && rule_permits_host(#[trigger] rules[i], host)
}

/// The host names of a policy, in lower case, each once, in order of appearance.
pub open spec fn named_hosts(rules: Seq<Rule>) -> Seq<Seq<char>>
    decreases rules.len(),
{
    if rules.len() == 0 {
        Seq::empty()
    } else {
        let before = named_hosts(rules.drop_last());
        match rules.last() {
            Rule::Host { host, .. } if !before.contains(lower(host)) => before.push(lower(host)),
            _ => before,
        }
    }
}

fn entry_of(s: &Vec<char>) -> (entry: AllowEntry)
    ensures
        entry@ == rule_of(s@),
{
    let star: [char; 1] = ['*'];
    assert(star@ == seq!['*']);
    if same_chars(s.as_slice(), &star) {
        return AllowEntry::Anything;
    }
    let n: usize = s.len();
    match find_last(s.as_slice(), ':') {
        Some(i) => {
            let host: Vec<char> = char_range(s.as_slice(), 0, i);
            let rest: Vec<char> = char_range(s.as_slice(), i + 1, n);
            assert(host@ == s@.take(i as int));
            assert(rest@ == s@.skip(i + 1));
            let port: Option<u16> = if same_chars(rest.as_slice(), &star) {
                None
            } else {
                match parse_unsigned(rest.as_slice(), 0xFFFF) {
                    Some(n) => Some(n as u16),
                    None => None,
                }
            };
            AllowEntry::Host { host, port }
        },
        None => {
            let host: Vec<char> = char_range(s.as_slice(), 0, n);
            assert(host@ == s@);
            AllowEntry::Host { host, port: None }
        },
    }
}

impl Allowlist {
    /// Reads a policy. White space around entries does not matter, and empty
    /// entries are dropped.
    pub fn parse(raw: &str) -> (list: Self)
        ensures
            list@ == rules_of(split(raw@, ',')),
    {
        let chars: Vec<char> = chars_of(raw);
        let pieces: Vec<Vec<char>> = split_at(chars.as_slice(), ',');
        let ghost all = views(pieces@);
        let mut list = Allowlist { entries: Vec::new() };
        let mut i: usize = 0;
        assert(all.take(0).len() == 0);
        assert(list@ == rules_of(all.take(0)));
        while i < pieces.len()
            invariant
                i <= pieces@.len(),
                all == views(pieces@),
                list@ == rules_of(all.take(i as int)),
            decreases pieces@.len() - i,
        {
            let entry: Vec<char> = trimmed(pieces[i].as_slice());
            let ghost before = list@;
            assert(all.take(i + 1).drop_last() == all.take(i as int));
            assert(all.take(i + 1).last() == pieces@[i as int]@);
            if entry.len() > 0 {
                list.entries.push(entry_of(&entry));
                assert(list@ == before.push(rule_of(entry@)));
            }
            i = i + 1;
        }
        assert(all.take(all.len() as int) == all);
        list
    }

    /// Whether the policy denies everything for want of entries.
    pub fn is_empty(&self) -> (b: bool)
        ensures
            b == (self@.len() == 0),
    {
        self.entries.len() == 0
    }

    /// Whether the policy has an entry for anything at all, which makes whoever
    /// uses it an open relay.
    pub fn allows_anything(&self) -> (b: bool)
        ensures
            b == self@.contains(Rule::Anything),
    {
        let mut i: usize = 0;
        while i < self.entries.len()
            invariant
                i <= self.entries@.len(),
                forall|j: int| 0 <= j < i ==> self@[j] != Rule::Anything,
            decreases self.entries@.len() - i,
        {
            if let AllowEntry::Anything = &self.entries[i] {
                assert(self@[i as int] == Rule::Anything);
                return true;
            }
            i = i + 1;
        }
        false
    }

    /// Whether `host` may be reached on `port`.
    pub fn permits(&self, host: &str, port: u16) -> (b: bool)
        ensures
            b == permitted(self@, host@, port),
    {
        let chars: Vec<char> = chars_of(host);
        let mut i: usize = 0;
        while i < self.entries.len()
            invariant
                i <= self.entries@.len(),
                chars@ == host@,
                forall|j: int| 0 <= j < i ==> !rule_permits(#[trigger] self@[j], host@, port),
            decreases self.entries@.len() - i,
        {
            let hit = match &self.entries[i] {
                AllowEntry::Anything => true,
                AllowEntry::Host { host: h, port: p } => same_ignoring_case(
                    h.as_slice(),
                    chars.as_slice(),
                ) && (match p {
                    None => true,
                    Some(pp) => *pp == port,
                }),
            };
            assert(hit == rule_permits(self@[i as int], host@, port));
            if hit {
                return true;
            }
            i = i + 1;
        }
        false
    }

    /// Whether `host` may be reached on some port.
    pub fn permits_host(&self, host: &str) -> (b: bool)
        ensures
            b == host_permitted(self@, host@),
    {
        let chars: Vec<char> = chars_of(host);
        let mut i: usize = 0;
        while i < self.entries.len()
            invariant
                i <= self.entries@.len(),
                chars@ == host@,
                forall|j: int| 0 <= j < i ==> !rule_permits_host(#[trigger] self@[j], host@),
            decreases self.entries@.len() - i,
        {
            let hit = match &self.entries[i] {
                AllowEntry::Anything => true,
                AllowEntry::Host { host: h, port: p } => same_ignoring_case(
                    h.as_slice(),
                    chars.as_slice(),
                ),
            };
            assert(hit == rule_permits_host(self@[i as int], host@));
            if hit {
                return true;
            }
            i = i + 1;
        }
        false
    }

    /// The host names of the policy, in lower case, each once.
    pub fn hosts(&self) -> (names: Vec<String>)
        ensures
            Seq::new(names@.len(), |i: int| names@[i]@) == named_hosts(self@),
    {
        let mut found: Vec<Vec<char>> = Vec::new();
        let mut i: usize = 0;
        assert(self@.take(0).len() == 0);
        assert(views(found@) == named_hosts(self@.take(0)));
        while i < self.entries.len()
            invariant
                i <= self.entries@.len(),
                views(found@) == named_hosts(self@.take(i as int)),
            decreases self.entries@.len() - i,
        {
            assert(self@.take(i + 1).drop_last() == self@.take(i as int));
            assert(self@.take(i + 1).last() == self@[i as int]);
            if let AllowEntry::Host { host, port: _ } = &self.entries[i] {
                let name: Vec<char> = lowered(host.as_slice());
                let ghost before = views(found@);
                if !contains_text(&found, &name) {
                    let ghost text = name@;
                    found.push(name);
                    assert(views(found@) == before.push(text));
                }
            }
            i = i + 1;
        }
        assert(self@.take(self@.len() as int) == self@);
        let mut names: Vec<String> = Vec::new();
        let mut k: usize = 0;
        while k < found.len()
            invariant
                k <= found@.len(),
                names@.len() == k,
                forall|j: int| 0 <= j < k ==> (#[trigger] names@[j])@ == found@[j]@,
            decreases found@.len() - k,
        {
            names.push(text_of(found[k].as_slice()));
            k = k + 1;
        }
        assert(Seq::new(names@.len(), |i: int| names@[i]@) == views(found@));
        names
    }
}

fn contains_text(list: &Vec<Vec<char>>, text: &Vec<char>) -> (b: bool)
    ensures
        b == views(list@).contains(text@),
{
    let mut i: usize = 0;
    while i < list.len()
        invariant
            i <= list@.len(),
            forall|j: int| 0 <= j < i ==> (#[trigger] list@[j])@ != text@,
        decreases list@.len() - i,
    {
        if same_chars(list[i].as_slice(), text.as_slice()) {
            assert(views(list@)[i as int] == text@);
            return true;
        }
        i = i + 1;
    }
    false
}

impl Default for Allowlist {
    fn default() -> (list: Self)
        ensures
            list@.len() == 0,
    {
        Allowlist { entries: Vec::new() }
    }
}

/// Whether an address is outside: not "this network", private, shared
/// carrier-grade NAT, loopback, link-local, assigned to protocols, documentation
/// or benchmarking, multicast, or reserved.
pub open spec fn globally_routable(ip: Ipv4Addr) -> bool {
    &&& ip.a != 0
    &&& ip.a != 10
    &&& !(ip.a == 100 && 64 <= ip.b <= 127)
    &&& ip.a != 127
    &&& !(ip.a == 169 && ip.b == 254)
    &&& !(ip.a == 172 && 16 <= ip.b <= 31)
    &&& !(ip.a == 192 && ip.b == 0 && ip.c == 0)
    &&& !(ip.a == 192 && ip.b == 0 && ip.c == 2)
    &&& !(ip.a == 192 && ip.b == 168)
    &&& !(ip.a == 198 && (ip.b == 18 || ip.b == 19))
    &&& !(ip.a == 198 && ip.b == 51 && ip.c == 100)
    &&& !(ip.a == 203 && ip.b == 0 && ip.c == 113)
    &&& ip.a < 224
}

/// Whether an address is outside.
pub fn is_globally_routable(ip: Ipv4Addr) -> (b: bool)
    ensures
        b == globally_routable(ip),
{
    let a: u8 = ip.a;
    let b: u8 = ip.b;
    let c: u8 = ip.c;
    if a == 0 || a == 10 || a == 127 || a >= 224 {
        return false;
    }
    match a {
        100 => !(64 <= b && b <= 127),
        169 => b != 254,
        172 => !(16 <= b && b <= 31),
        192 => !(b == 0 && (c == 0 || c == 2)) && b != 168,
        198 => b != 18 && b != 19 && !(b == 51 && c == 100),
        203 => !(b == 0 && c == 113),
        _ => true,
    }
}

/// A policy without entries permits nothing.
pub proof fn law_empty_policy_denies_everything(host: Seq<char>, port: u16)
    ensures
        !permitted(Seq::empty(), host, port),
        !host_permitted(Seq::empty(), host),
{
}

/// A text is the policy without entries exactly when nothing is left of any of its
/// entries once white space is trimmed, which is when it holds nothing but white
/// space and commas.
pub proof fn law_blank_text_is_empty_policy(raw: Seq<char>)
    ensures
        rules_of(split(raw, ',')).len() == 0 <==> (forall|k: int|
            0 <= k < split(raw, ',').len() ==> trim(#[trigger] split(raw, ',')[k]).len() == 0),
        rules_of(split(raw, ',')).len() == 0 <==> (forall|i: int|
            0 <= i < raw.len() ==> #[trigger] raw[i] == ',' || is_space(raw[i])),
{
    let pieces = split(raw, ',');
    lemma_no_rules(pieces);
    lemma_blank_pieces(raw);
    assert forall|k: int| 0 <= k < pieces.len() implies (trim(#[trigger] pieces[k]).len() == 0)
        == blank(pieces[k]) by {
        lemma_trim_of_blank(pieces[k]);
    }
}

/// Whether a text holds nothing but white space.
spec fn blank(s: Seq<char>) -> bool {
    forall|j: int| 0 <= j < s.len() ==> is_space(#[trigger] s[j])
}

proof fn lemma_no_rules(pieces: Seq<Seq<char>>)
    ensures
        rules_of(pieces).len() == 0 <==> (forall|k: int|
            0 <= k < pieces.len() ==> trim(#[trigger] pieces[k]).len() == 0),
    decreases pieces.len(),
{
    if pieces.len() > 0 {
        let shorter = pieces.drop_last();
        lemma_no_rules(shorter);
        if rules_of(pieces).len() == 0 {
            assert forall|k: int| 0 <= k < pieces.len() implies trim(#[trigger] pieces[k]).len()
                == 0 by {
                if k < shorter.len() {
                    assert(shorter[k] == pieces[k]);
                }
            }
        }
        if forall|k: int| 0 <= k < pieces.len() ==> trim(#[trigger] pieces[k]).len() == 0 {
            assert(trim(pieces[pieces.len() - 1]).len() == 0);
            assert forall|k: int| 0 <= k < shorter.len() implies trim(#[trigger] shorter[k]).len()
                == 0 by {
                assert(trim(pieces[k]).len() == 0);
            }
        }
    }
}

proof fn lemma_blank_pieces(raw: Seq<char>)
    ensures
        split(raw, ',').len() >= 1,
        (forall|k: int| 0 <= k < split(raw, ',').len() ==> blank(#[trigger] split(raw, ',')[k]))
            <==> (forall|i: int| 0 <= i < raw.len() ==> #[trigger] raw[i] == ',' || is_space(raw[i])),
    decreases raw.len(),
{
    let after = split(raw, ',');
    if raw.len() == 0 {
        assert(after[0].len() == 0);
    } else {
        let shorter = raw.drop_last();
        let c = raw.last();
        lemma_blank_pieces(shorter);
        let before = split(shorter, ',');
        let n = before.len() - 1;
        if forall|k: int| 0 <= k < after.len() ==> blank(#[trigger] after[k]) {
            assert forall|k: int| 0 <= k < before.len() implies blank(#[trigger] before[k]) by {
                assert(blank(after[k]));
                if c != ',' && k == n {
                    assert(after[n] == before[n].push(c));
                    assert forall|j: int| 0 <= j < before[n].len() implies is_space(
                        #[trigger] before[n][j],
                    ) by {
                        assert(is_space(after[n][j]));
                    }
                }
            }
            if c != ',' {
                assert(blank(after[n]));
                assert(is_space(after[n][before[n].len() as int]));
            }
            assert forall|i: int| 0 <= i < raw.len() implies #[trigger] raw[i] == ',' || is_space(
                raw[i],
            ) by {
                if i < shorter.len() {
                    assert(shorter[i] == raw[i]);
                }
            }
        }
        if forall|i: int| 0 <= i < raw.len() ==> #[trigger] raw[i] == ',' || is_space(raw[i]) {
            assert(raw[raw.len() - 1] == c);
            assert forall|i: int| 0 <= i < shorter.len() implies #[trigger] shorter[i] == ','
                || is_space(shorter[i]) by {
                assert(raw[i] == shorter[i]);
            }
            assert forall|k: int| 0 <= k < after.len() implies blank(#[trigger] after[k]) by {
                if k < n || (c == ',' && k == n) {
                    assert(after[k] == before[k]);
                } else if c != ',' {
                    assert(blank(before[n]));
                    assert(after[k] == before[n].push(c));
                }
            }
        }
    }
}

proof fn lemma_trim_start(s: Seq<char>)
    ensures
        trim_start(s).len() == 0 <==> blank(s),
        trim_start(s).len() > 0 ==> !is_space(trim_start(s)[0]),
    decreases s.len(),
{
    if s.len() > 0 && is_space(s[0]) {
        let rest = s.drop_first();
        lemma_trim_start(rest);
        if blank(rest) {
            assert forall|j: int| 0 <= j < s.len() implies is_space(#[trigger] s[j]) by {
                if j > 0 {
                    assert(s[j] == rest[j - 1]);
                }
            }
        }
        if blank(s) {
            assert forall|j: int| 0 <= j < rest.len() implies is_space(#[trigger] rest[j]) by {
                assert(rest[j] == s[j + 1]);
            }
        }
    }
}

proof fn lemma_trim_end(s: Seq<char>)
    ensures
        s.len() > 0 && !is_space(s[0]) ==> trim_end(s).len() > 0,
        s.len() == 0 ==> trim_end(s).len() == 0,
    decreases s.len(),
{
    if s.len() > 0 && is_space(s.last()) {
        lemma_trim_end(s.drop_last());
    }
}

proof fn lemma_trim_of_blank(s: Seq<char>)
    ensures
        trim(s).len() == 0 <==> blank(s),
{
    lemma_trim_start(s);
    lemma_trim_end(trim_start(s));
}

/// A rule for anything permits everything.
pub proof fn law_wildcard_permits_everything(rules: Seq<Rule>, host: Seq<char>, port: u16)
    requires
        rules.contains(Rule::Anything),
    ensures
        permitted(rules, host, port),
        host_permitted(rules, host),
{
    let i = choose|i: int| 0 <= i < rules.len() && rules[i] == Rule::Anything;
    assert(rule_permits(rules[i], host, port));
    assert(rule_permits_host(rules[i], host));
}

/// What may be reached on one port may be reached at all.
pub proof fn law_permitted_port_permits_host(rules: Seq<Rule>, host: Seq<char>, port: u16)
    requires
        permitted(rules, host, port),
    ensures
        host_permitted(rules, host),
{
    let i = choose|i: int| 0 <= i < rules.len() && rule_permits(#[trigger] rules[i], host, port);
    assert(rule_permits_host(rules[i], host));
}

/// What may be reached at all may be reached on some port.
pub proof fn law_permitted_host_has_a_port(rules: Seq<Rule>, host: Seq<char>)
    requires
        host_permitted(rules, host),
    ensures
        exists|port: u16| permitted(rules, host, port),
{
    let i = choose|i: int| 0 <= i < rules.len() && rule_permits_host(#[trigger] rules[i], host);
    let port = match rules[i] {
        Rule::Host { port: Some(p), .. } => p,
        _ => 80u16,
    };
    assert(rule_permits(rules[i], host, port));
    assert(permitted(rules, host, port));
}

/// The case of a host name does not matter.
pub proof fn law_host_case_is_ignored(rules: Seq<Rule>, a: Seq<char>, b: Seq<char>, port: u16)
    requires
        lower(a) == lower(b),
    ensures
        permitted(rules, a, port) == permitted(rules, b, port),
        host_permitted(rules, a) == host_permitted(rules, b),
{
    if permitted(rules, a, port) {
        let i = choose|i: int| 0 <= i < rules.len() && rule_permits(#[trigger] rules[i], a, port);
        assert(rule_permits(rules[i], b, port));
    }
    if permitted(rules, b, port) {
        let i = choose|i: int| 0 <= i < rules.len() && rule_permits(#[trigger] rules[i], b, port);
        assert(rule_permits(rules[i], a, port));
    }
    if host_permitted(rules, a) {
        let i = choose|i: int| 0 <= i < rules.len() && rule_permits_host(#[trigger] rules[i], a);
        assert(rule_permits_host(rules[i], b));
    }
    if host_permitted(rules, b) {
        let i = choose|i: int| 0 <= i < rules.len() && rule_permits_host(#[trigger] rules[i], b);
        assert(rule_permits_host(rules[i], a));
    }
}

proof fn lemma_split_joins(a: Seq<char>, b: Seq<char>, sep: char)
    ensures
        split(a, sep).len() >= 1,
        split(a + seq![sep] + b, sep) == split(a, sep) + split(b, sep),
    decreases a.len() + b.len(),
{
    let all = a + seq![sep] + b;
    if a.len() > 0 {
        lemma_split_joins(a.drop_last(), Seq::empty(), sep);
    }
    if b.len() == 0 {
        assert(all.drop_last() == a);
        assert(all.last() == sep);
    } else {
        let shorter = b.drop_last();
        lemma_split_joins(a, shorter, sep);
        lemma_split_joins(shorter, Seq::empty(), sep);
        assert(all.drop_last() == a + seq![sep] + shorter);
        assert(all.last() == b.last());
        let before = split(a, sep) + split(shorter, sep);
        assert(before.drop_last() == split(a, sep) + split(shorter, sep).drop_last());
        assert(before.last() == split(shorter, sep).last());
    }
}

proof fn lemma_rules_join(p: Seq<Seq<char>>, q: Seq<Seq<char>>)
    ensures
        rules_of(p + q) == rules_of(p) + rules_of(q),
    decreases q.len(),
{
    if q.len() == 0 {
        assert(p + q == p);
    } else {
        lemma_rules_join(p, q.drop_last());
        assert((p + q).drop_last() == p + q.drop_last());
    }
}

/// Two policies with a comma between them are one policy: the rules of the first,
/// then those of the second.
pub proof fn law_texts_compose(a: Seq<char>, b: Seq<char>)
    ensures
        rules_of(split(a + seq![','] + b, ',')) == rules_of(split(a, ',')) + rules_of(
            split(b, ','),
        ),
{
    lemma_split_joins(a, b, ',');
    lemma_rules_join(split(a, ','), split(b, ','));
}

/// A policy of two lists permits what either of them permits.
pub proof fn law_entries_compose(r: Seq<Rule>, s: Seq<Rule>, host: Seq<char>, port: u16)
    ensures
        permitted(r + s, host, port) == (permitted(r, host, port) || permitted(s, host, port)),
{
    let all = r + s;
    if permitted(all, host, port) {
        let i = choose|i: int| 0 <= i < all.len() && rule_permits(#[trigger] all[i], host, port);
        if i < r.len() {
            assert(rule_permits(r[i], host, port));
        } else {
            assert(rule_permits(s[i - r.len()], host, port));
        }
    }
    if permitted(r, host, port) {
        let i = choose|i: int| 0 <= i < r.len() && rule_permits(#[trigger] r[i], host, port);
        assert(rule_permits(all[i], host, port));
    }
    if permitted(s, host, port) {
        let i = choose|i: int| 0 <= i < s.len() && rule_permits(#[trigger] s[i], host, port);
        assert(rule_permits(all[r.len() + i], host, port));
    }
}

/// What the entries of a policy mean: `*` is anything; `host:port` is that host on that
/// port; `host:*`, and a host alone, is that host on every port. The last colon is the one
/// that counts.
pub proof fn law_entry_texts(host: Seq<char>, port: u16)
    ensures
        rule_of(seq!['*']) == Rule::Anything,
        rule_of(host + seq![':'] + to_decimal(port as nat)) == (Rule::Host {
            host,
            port: Some(port),
        }),
        rule_of(host + seq![':', '*']) == (Rule::Host { host, port: None }),
        !host.contains(':') && host != seq!['*'] ==> rule_of(host) == (Rule::Host {
            host,
            port: None,
        }),
{
    let digits = to_decimal(port as nat);
    law_digits_are_digits(port as nat, ':');
    law_digits_are_digits(port as nat, '*');
    law_unsigned_reads_digits(port as nat, 0xFFFF, Seq::empty(), 0);
    law_last_index(host, ':', digits);
    let s = host + seq![':'] + digits;
    let star = seq!['*'];
    assert(s.contains(':')) by {
        assert(s[host.len() as int] == ':');
    }
    assert(!star.contains(':'));
    assert(s != star);
    assert(s.take(host.len() as int) =~= host);
    assert(s.skip(host.len() as int + 1) =~= digits);
    assert(digits != star) by {
        if digits == star {
            assert(star[0] == '*');
            assert(digits.contains('*'));
        }
    }
    let t = host + seq![':', '*'];
    assert(t =~= host + seq![':'] + star);
    law_last_index(host, ':', star);
    assert(t[host.len() as int] == ':');
    assert(t.contains(':'));
    assert(t.take(host.len() as int) =~= host);
    assert(t.skip(host.len() as int + 1) =~= star);
    if !host.contains(':') {
        law_last_index(Seq::empty(), ':', host);
    }
}

/// When a rule lets a host be reached: an entry for anything always; one for a host if
/// the names are the same but for the case of letters, and the port is its own or it has
/// none.
pub proof fn law_rules_permit(h: Seq<char>, p: u16, host: Seq<char>, port: u16)
    ensures
        permitted(seq![Rule::Anything], host, port),
        permitted(seq![Rule::Host { host: h, port: Some(p) }], host, port) <==> lower(h) == lower(
            host,
        ) && p == port,
        permitted(seq![Rule::Host { host: h, port: None }], host, port) <==> lower(h) == lower(host),
        host_permitted(seq![Rule::Host { host: h, port: Some(p) }], host) <==> lower(h) == lower(
            host,
        ),
        host_permitted(seq![Rule::Host { host: h, port: None }], host) <==> lower(h) == lower(host),
{
    let any = seq![Rule::Anything];
    assert(rule_permits(any[0], host, port));
    let one = seq![Rule::Host { host: h, port: Some(p) }];
    assert(rule_permits(one[0], host, port) == (lower(h) == lower(host) && p == port));
    assert(rule_permits_host(one[0], host) == (lower(h) == lower(host)));
    let all = seq![Rule::Host { host: h, port: None }];
    assert(rule_permits(all[0], host, port) == (lower(h) == lower(host)));
    assert(rule_permits_host(all[0], host) == (lower(h) == lower(host)));
}

/// Reading a policy keeps one rule for each entry that is not blank, in order.
pub proof fn law_entries_become_rules(pieces: Seq<Seq<char>>, entry: Seq<char>)
    ensures
        trim(entry).len() > 0 ==> rules_of(pieces.push(entry)) == rules_of(pieces).push(
            rule_of(trim(entry)),
        ),
        trim(entry).len() == 0 ==> rules_of(pieces.push(entry)) == rules_of(pieces),
        rules_of(Seq::empty()) == Seq::<Rule>::empty(),
{
    assert(pieces.push(entry).drop_last() =~= pieces);
}

/// The host names of a policy: every host that a rule names is listed, in lower case, and
/// nothing else is, and no name is listed twice.
pub proof fn law_named_hosts(rules: Seq<Rule>, name: Seq<char>)
    ensures
        named_hosts(rules).contains(name) <==> exists|i: int|
            0 <= i < rules.len() && names_host(#[trigger] rules[i], name),
        named_hosts(rules).no_duplicates(),
    decreases rules.len(),
{
    if rules.len() > 0 {
        let shorter = rules.drop_last();
        law_named_hosts(shorter, name);
        let before = named_hosts(shorter);
        let after = named_hosts(rules);
        let last = rules.last();
        if exists|i: int| 0 <= i < shorter.len() && names_host(#[trigger] shorter[i], name) {
            let i = choose|i: int| 0 <= i < shorter.len() && names_host(#[trigger] shorter[i], name);
            assert(names_host(rules[i], name));
        }
        if exists|i: int| 0 <= i < rules.len() && names_host(#[trigger] rules[i], name) {
            let i = choose|i: int| 0 <= i < rules.len() && names_host(#[trigger] rules[i], name);
            if i < shorter.len() {
                assert(names_host(shorter[i], name));
            }
        }
        if names_host(last, name) {
            assert(names_host(rules[rules.len() - 1], name));
        }
        if after != before {
            let added = after.last();
            assert(after == before.push(added));
            assert(names_host(last, added));
            if before.contains(name) {
                let j = choose|j: int| 0 <= j < before.len() && before[j] == name;
                assert(after[j] == name);
            }
            assert(after[before.len() as int] == added);
            if after.contains(name) {
                let j = choose|j: int| 0 <= j < after.len() && after[j] == name;
                if j < before.len() {
                    assert(before[j] == name);
                }
            }
            assert forall|a: int, b: int| 0 <= a < b < after.len() implies after[a] != after[b] by {
                if b == before.len() {
                    assert(before.contains(before[a]));
                }
            }
        }
    }
}

/// Whether a rule names a host that reads, in lower case, as `name`.
pub open spec fn names_host(rule: Rule, name: Seq<char>) -> bool {
    rule matches Rule::Host { host, .. } && lower(host) == name
}

/// Which addresses are outside, as ranges of numbers: all but 0.0.0.0/8, 10.0.0.0/8,
/// 100.64.0.0/10, 127.0.0.0/8, 169.254.0.0/16, 172.16.0.0/12, 192.0.0.0/24, 192.0.2.0/24,
/// 192.168.0.0/16, 198.18.0.0/15, 198.51.100.0/24, 203.0.113.0/24 and everything from
/// 224.0.0.0 on.
pub proof fn law_outside_ranges(ip: Ipv4Addr)
    ensures
        ({
            let n = ((ip.a * 256 + ip.b) * 256 + ip.c) * 256 + ip.d;
            globally_routable(ip) <==> {
                &&& n >= 0x0100_0000
                &&& !(0x0A00_0000 <= n <= 0x0AFF_FFFF)
                &&& !(0x6440_0000 <= n <= 0x647F_FFFF)
                &&& !(0x7F00_0000 <= n <= 0x7FFF_FFFF)
                &&& !(0xA9FE_0000 <= n <= 0xA9FE_FFFF)
                &&& !(0xAC10_0000 <= n <= 0xAC1F_FFFF)
                &&& !(0xC000_0000 <= n <= 0xC000_00FF)
                &&& !(0xC000_0200 <= n <= 0xC000_02FF)
                &&& !(0xC0A8_0000 <= n <= 0xC0A8_FFFF)
                &&& !(0xC612_0000 <= n <= 0xC613_FFFF)
                &&& !(0xC633_6400 <= n <= 0xC633_64FF)
                &&& !(0xCB00_7100 <= n <= 0xCB00_71FF)
                &&& n < 0xE000_0000
            }
        }),
{
}

} // verus!
