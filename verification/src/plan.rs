//! What there is to scan: ports, domains, and what an earlier run has done.
use vstd::hash_map::StringHashMap;
use vstd::prelude::*;

use crate::text::{
    all_digits, chars_of, decimal, digit_char, digit_value, is_digit, lemma_split_concatenates,
    lemma_split_whole, number, split, texts, trim, trimmed,
};

verus! {

/// The port that a text stands for: decimal digits, with a plus sign before
/// them or not, of a number that a port can have.
pub open spec fn port_number(s: Seq<char>) -> Option<u16> {
    let digits = if s.len() > 0 && s[0] == '+' {
        s.drop_first()
    } else {
        s
    };
    if digits.len() > 0 && all_digits(digits) && number(digits) <= u16::MAX {
        Some(number(digits) as u16)
    } else {
        None
    }
}

/// The ports in a list with commas between them, white space around each aside;
/// what is no port is passed over.
pub open spec fn port_list(s: Seq<char>) -> Seq<u16> {
    split(s, ',').filter_map(|piece: Seq<char>| port_number(trim(piece)))
}

/// More digits make a number no smaller.
proof fn lemma_number_grows(s: Seq<char>, i: int)
    requires
        0 <= i <= s.len(),
    ensures
        number(s.take(i)) <= number(s),
    decreases s.len() - i,
{
    if i < s.len() {
        lemma_number_grows(s, i + 1);
        assert(s.take(i + 1).drop_last() =~= s.take(i));
    } else {
        assert(s.take(i) =~= s);
    }
}

/// The port that a text stands for.
pub fn parse_port(s: &[char]) -> (r: Option<u16>)
    ensures
        r == port_number(s@),
{
    let start: usize = if s.len() > 0 && s[0] == '+' {
        1
    } else {
        0
    };
    let ghost digits = s@.skip(start as int);
    assert(start == 1 ==> digits =~= s@.drop_first());
    assert(start == 0 ==> digits =~= s@);
    if start == s.len() {
        return None;
    }
    let mut value: u32 = 0;
    let mut i: usize = start;
    while i < s.len()
        invariant
            start <= i <= s@.len(),
            digits == s@.skip(start as int),
            port_number(s@) == if digits.len() > 0 && all_digits(digits) && number(digits)
                <= u16::MAX {
                Some(number(digits) as u16)
            } else {
                None
            },
            value == number(digits.take(i - start)),
            value <= u16::MAX,
            forall|j: int| 0 <= j < i - start ==> is_digit(#[trigger] digits[j]),
        decreases s@.len() - i,
    {
        let c = s[i];
        assert(digits[i - start] == c);
        if c < '0' || c > '9' {
            return None;
        }
        assert(digits.take(i - start + 1).drop_last() =~= digits.take(i - start));
        value = value * 10 + (c as u32 - '0' as u32);
        i = i + 1;
        if value > 65535 {
            proof {
                lemma_number_grows(digits, i - start);
            }
            return None;
        }
    }
    assert(digits.take(i - start) =~= digits);
    Some(value as u16)
}

/// The ports in a list with commas between them.
pub fn parse_ports(text: &str) -> (r: Vec<u16>)
    ensures
        r@ == port_list(text@),
{
    let chars = chars_of(text);
    let ghost read = |piece: Seq<char>| port_number(trim(piece));
    let mut ports: Vec<u16> = Vec::new();
    let mut start: usize = 0;
    let mut i: usize = 0;
    assert(split(chars@.take(0), ',').drop_last() =~= Seq::empty());
    assert(split(chars@.take(0), ',').last() =~= chars@.subrange(0, 0));
    while i < chars.len()
        invariant
            start <= i <= chars@.len(),
            read == (|piece: Seq<char>| port_number(trim(piece))),
            split(chars@.take(i as int), ',').len() > 0,
            split(chars@.take(i as int), ',').last() == chars@.subrange(start as int, i as int),
            ports@ == split(chars@.take(i as int), ',').drop_last().filter_map(read),
        decreases chars@.len() - i,
    {
        let ghost pieces = split(chars@.take(i as int), ',');
        let ghost next = split(chars@.take(i + 1), ',');
        assert(chars@.take(i + 1).drop_last() =~= chars@.take(i as int));
        if chars[i] == ',' {
            if let Some(port) = parse_port(trimmed(&chars.as_slice()[start..i])) {
                ports.push(port);
            }
            start = i + 1;
            assert(next.drop_last() =~= pieces);
            assert(ports@ =~= pieces.filter_map(read));
            assert(next.last() =~= chars@.subrange(start as int, i + 1));
        } else {
            assert(next.drop_last() =~= pieces.drop_last());
            assert(next.last() =~= chars@.subrange(start as int, i + 1));
        }
        i = i + 1;
    }
    assert(chars@.take(chars@.len() as int) =~= chars@);
    if let Some(port) = parse_port(trimmed(&chars.as_slice()[start..i])) {
        ports.push(port);
    }
    assert(ports@ =~= split(text@, ',').filter_map(read));
    ports
}

/// Whether a line of the input names a domain: it is not empty and no comment.
pub open spec fn names_domain(line: Seq<char>) -> bool {
    line.len() > 0 && line[0] != '#'
}

/// The domains that the lines of the input name, in order.
pub fn select_domains(lines: &Vec<String>) -> (r: Vec<String>)
    ensures
        texts(r@) == texts(lines@).filter(|line: Seq<char>| names_domain(line)),
{
    let ghost keep = |line: Seq<char>| names_domain(line);
    let mut domains: Vec<String> = Vec::new();
    let mut i: usize = 0;
    proof {
        reveal(Seq::filter);
        assert(texts(domains@) =~= texts(lines@).take(0).filter(keep));
    }
    while i < lines.len()
        invariant
            i <= lines@.len(),
            keep == (|line: Seq<char>| names_domain(line)),
            texts(domains@) == texts(lines@).take(i as int).filter(keep),
        decreases lines@.len() - i,
    {
        let ghost before = texts(domains@);
        let chars = chars_of(lines[i].as_str());
        if chars.len() > 0 && chars[0] != '#' {
            domains.push(lines[i].clone());
            assert(texts(domains@) =~= before.push(lines@[i as int]@));
        }
        proof {
            reveal(Seq::filter);
            let next = texts(lines@).take(i + 1);
            assert(next.drop_last() =~= texts(lines@).take(i as int));
            assert(next.last() == lines@[i as int]@);
        }
        i = i + 1;
    }
    assert(texts(lines@).take(lines@.len() as int) =~= texts(lines@));
    domains
}

/// The endpoints that have been scanned already.
pub struct ScannedSet {
    ports_of: StringHashMap<Vec<u16>>,
    count: usize,
}

impl View for ScannedSet {
    type V = Set<(Seq<char>, u16)>;

    closed spec fn view(&self) -> Set<(Seq<char>, u16)> {
        Set::new(
            |e: (Seq<char>, u16)|
                self.ports_of@.contains_key(e.0) && self.ports_of@[e.0]@.contains(e.1),
        )
    }
}

/// Whether a port is among some others.
fn has_port(ports: &Vec<u16>, port: u16) -> (r: bool)
    ensures
        r == ports@.contains(port),
{
    let mut i: usize = 0;
    while i < ports.len()
        invariant
            i <= ports@.len(),
            forall|j: int| 0 <= j < i ==> ports@[j] != port,
        decreases ports@.len() - i,
    {
        if ports[i] == port {
            return true;
        }
        i = i + 1;
    }
    false
}

impl ScannedSet {
    /// The number kept is that of the endpoints in the set.
    #[verifier::type_invariant]
    closed spec fn counted(self) -> bool {
        self@.finite() && self@.len() == self.count
    }

    /// A set with nothing in it.
    pub fn new() -> (r: Self)
        ensures
            r@ == Set::<(Seq<char>, u16)>::empty(),
    {
        let ports_of: StringHashMap<Vec<u16>> = StringHashMap::new();
        assert((ScannedSet { ports_of, count: 0 })@ =~= Set::<(Seq<char>, u16)>::empty());
        ScannedSet { ports_of, count: 0 }
    }

    /// Whether an endpoint is in the set.
    pub fn contains(&self, domain: &str, port: u16) -> (r: bool)
        ensures
            r == self@.contains((domain@, port)),
    {
        match self.ports_of.get(domain) {
            Some(ports) => has_port(ports, port),
            None => false,
        }
    }

    /// How many endpoints are in the set.
    pub fn len(&self) -> (r: usize)
        ensures
            self@.finite(),
            r == self@.len(),
    {
        proof {
            use_type_invariant(self);
        }
        self.count
    }

    /// Puts an endpoint into the set.
    pub fn insert(&mut self, domain: &str, port: u16)
        requires
            old(self)@.len() < usize::MAX,
        ensures
            final(self)@ == old(self)@.insert((domain@, port)),
    {
        proof {
            use_type_invariant(&*self);
        }
        let ghost before = self@;
        let mut ports: Vec<u16> = match self.ports_of.get(domain) {
            Some(known) => known.clone(),
            None => Vec::new(),
        };
        if has_port(&ports, port) {
            assert(before.insert((domain@, port)) =~= before);
            return;
        }
        let ghost known = ports@;
        ports.push(port);
        let mut taken = ScannedSet::new();
        std::mem::swap(self, &mut taken);
        let ScannedSet { mut ports_of, count } = taken;
        ports_of.insert(domain.to_owned(), ports);
        proof {
            assert forall|p: u16| ports@.contains(p) <==> known.contains(p) || p == port by {
                if known.contains(p) {
                    let i = choose|i: int| 0 <= i < known.len() && known[i] == p;
                    assert(ports@[i] == p);
                }
                assert(ports@[known.len() as int] == port);
            }
            assert((ScannedSet { ports_of, count })@ =~= before.insert((domain@, port)));
        }
        *self = ScannedSet { ports_of, count: count + 1 };
    }
}

/// Whether a row of an earlier output is that of an endpoint: a domain and a
/// port in its first two columns.
pub open spec fn row_names(row: Seq<Seq<char>>, endpoint: (Seq<char>, u16)) -> bool {
    row.len() >= 2 && row[0] == endpoint.0 && port_number(row[1]) == Some(endpoint.1)
}

/// The characters of each field of each row.
pub open spec fn row_texts(rows: Seq<Vec<String>>) -> Seq<Seq<Seq<char>>> {
    rows.map_values(|row: Vec<String>| texts(row@))
}

/// The endpoints that the rows of an earlier output name.
pub open spec fn scanned_endpoints(rows: Seq<Seq<Seq<char>>>) -> Set<(Seq<char>, u16)> {
    Set::new(
        |e: (Seq<char>, u16)| exists|i: int| 0 <= i < rows.len() && row_names(#[trigger] rows[i], e),
    )
}

/// One more row adds the endpoint that it names, if it names one.
pub proof fn lemma_scanned_grows(rows: Seq<Seq<Seq<char>>>, row: Seq<Seq<char>>)
    ensures
        scanned_endpoints(rows.push(row)) == if row.len() >= 2 && port_number(row[1]) is Some {
            scanned_endpoints(rows).insert((row[0], port_number(row[1])->0))
        } else {
            scanned_endpoints(rows)
        },
{
    let all = rows.push(row);
    assert forall|e: (Seq<char>, u16)|
        scanned_endpoints(all).contains(e) <==> scanned_endpoints(rows).contains(e) || row_names(
            row,
            e,
        ) by {
        if scanned_endpoints(rows).contains(e) {
            let i = choose|i: int| 0 <= i < rows.len() && row_names(#[trigger] rows[i], e);
            assert(row_names(all[i], e));
        }
        if row_names(row, e) {
            assert(row_names(all[rows.len() as int], e));
        }
        if scanned_endpoints(all).contains(e) && !row_names(row, e) {
            let i = choose|i: int| 0 <= i < all.len() && row_names(#[trigger] all[i], e);
            assert(row_names(rows[i], e));
        }
    }
    let expected = if row.len() >= 2 && port_number(row[1]) is Some {
        scanned_endpoints(rows).insert((row[0], port_number(row[1])->0))
    } else {
        scanned_endpoints(rows)
    };
    assert forall|e: (Seq<char>, u16)| scanned_endpoints(all).contains(e) == expected.contains(e) by {
        assert(row_names(row, e) ==> e == (row[0], port_number(row[1])->0));
    }
    assert(scanned_endpoints(all) =~= expected);
}

/// Collects the endpoints that the rows of an earlier output name.
pub fn already_scanned(rows: &Vec<Vec<String>>) -> (r: ScannedSet)
    ensures
        r@ == scanned_endpoints(row_texts(rows@)),
        r@.len() <= rows@.len(),
{
    let mut scanned = ScannedSet::new();
    let mut i: usize = 0;
    assert(scanned_endpoints(row_texts(rows@).take(0)) =~= Set::empty());
    while i < rows.len()
        invariant
            i <= rows@.len(),
            scanned@ == scanned_endpoints(row_texts(rows@).take(i as int)),
            scanned@.finite(),
            scanned@.len() <= i,
        decreases rows@.len() - i,
    {
        let row = &rows[i];
        proof {
            let all = row_texts(rows@);
            assert(all.take(i + 1) =~= all.take(i as int).push(texts(row@)));
            lemma_scanned_grows(all.take(i as int), texts(row@));
        }
        if row.len() >= 2 {
            let port = chars_of(row[1].as_str());
            if let Some(port) = parse_port(port.as_slice()) {
                scanned.insert(row[0].as_str(), port);
            }
        }
        i = i + 1;
    }
    assert(row_texts(rows@).take(rows@.len() as int) =~= row_texts(rows@));
    scanned
}

/// Every domain with every port: domain by domain, and for each the ports in
/// their order.
pub open spec fn endpoints(domains: Seq<Seq<char>>, ports: Seq<u16>) -> Seq<(Seq<char>, u16)>
    decreases domains.len(),
{
    if domains.len() == 0 {
        Seq::empty()
    } else {
        endpoints(domains.drop_last(), ports) + ports.map_values(|p: u16| (domains.last(), p))
    }
}

/// The endpoints with their domains as sequences of characters.
pub open spec fn task_views(tasks: Seq<(String, u16)>) -> Seq<(Seq<char>, u16)> {
    tasks.map_values(|t: (String, u16)| (t.0@, t.1))
}

/// The endpoints that are still to be scanned: every domain with every port, in
/// order, but for what has been scanned already.
pub open spec fn remaining(
    domains: Seq<Seq<char>>,
    ports: Seq<u16>,
    scanned: Set<(Seq<char>, u16)>,
) -> Seq<(Seq<char>, u16)> {
    endpoints(domains, ports).filter(|e: (Seq<char>, u16)| !scanned.contains(e))
}

/// Lists the endpoints that are still to be scanned.
pub fn plan_tasks(domains: &Vec<String>, ports: &Vec<u16>, scanned: &ScannedSet) -> (r: Vec<
    (String, u16),
>)
    ensures
        task_views(r@) == remaining(texts(domains@), ports@, scanned@),
{
    let ghost open = |e: (Seq<char>, u16)| !scanned@.contains(e);
    let ghost names = texts(domains@);
    let mut tasks: Vec<(String, u16)> = Vec::new();
    let mut i: usize = 0;
    proof {
        reveal(Seq::filter);
        assert(task_views(tasks@) =~= endpoints(names.take(0), ports@).filter(open));
    }
    while i < domains.len()
        invariant
            i <= domains@.len(),
            names == texts(domains@),
            open == (|e: (Seq<char>, u16)| !scanned@.contains(e)),
            task_views(tasks@) == endpoints(names.take(i as int), ports@).filter(open),
        decreases domains@.len() - i,
    {
        let ghost done = endpoints(names.take(i as int), ports@);
        let ghost row = ports@.map_values(|p: u16| (names[i as int], p));
        let mut j: usize = 0;
        assert(done + row.take(0) =~= done);
        while j < ports.len()
            invariant
                i < domains@.len(),
                j <= ports@.len(),
                names == texts(domains@),
                row == ports@.map_values(|p: u16| (names[i as int], p)),
                open == (|e: (Seq<char>, u16)| !scanned@.contains(e)),
                task_views(tasks@) == (done + row.take(j as int)).filter(open),
            decreases ports@.len() - j,
        {
            let ghost before = task_views(tasks@);
            let domain = &domains[i];
            let port = ports[j];
            if !scanned.contains(domain.as_str(), port) {
                tasks.push((domain.clone(), port));
                assert(task_views(tasks@) =~= before.push((domain@, port)));
            }
            proof {
                let next = done + row.take(j + 1);
                assert(next =~= (done + row.take(j as int)).push((domain@, port)));
                Seq::lemma_filter_push(done + row.take(j as int), (domain@, port), open);
            }
            j = j + 1;
        }
        proof {
            assert(names.take(i + 1).drop_last() =~= names.take(i as int));
            assert(names.take(i + 1).last() == names[i as int]);
            assert(row.take(ports@.len() as int) =~= row);
            assert(endpoints(names.take(i + 1), ports@) =~= done + row);
        }
        i = i + 1;
    }
    assert(names.take(domains@.len() as int) =~= names);
    tasks
}

/// How many scans there are in all, done or not.
pub fn total_scans(domains: usize, ports: usize) -> (r: usize)
    requires
        domains * ports <= usize::MAX,
    ensures
        r == domains * ports,
{
    domains * ports
}

/// An endpoint is among all if and only if its domain is among the domains and
/// its port among the ports; and there are as many as the two numbers multiply
/// to.
pub proof fn lemma_endpoints(domains: Seq<Seq<char>>, ports: Seq<u16>)
    ensures
        endpoints(domains, ports).len() == domains.len() * ports.len(),
        forall|e: (Seq<char>, u16)|
            endpoints(domains, ports).contains(e) <==> domains.contains(e.0) && ports.contains(e.1),
    decreases domains.len(),
{
    let all = endpoints(domains, ports);
    if domains.len() > 0 {
        let init = domains.drop_last();
        let last = domains.last();
        let row = ports.map_values(|p: u16| (last, p));
        let before = endpoints(init, ports);
        lemma_endpoints(init, ports);
        assert((domains.len() - 1) * ports.len() + ports.len() == domains.len() * ports.len())
            by (nonlinear_arith);
        assert forall|e: (Seq<char>, u16)|
            all.contains(e) <==> domains.contains(e.0) && ports.contains(e.1) by {
            if all.contains(e) {
                let k = choose|k: int| 0 <= k < all.len() && all[k] == e;
                if k < before.len() {
                    assert(before[k] == e);
                    assert(before.contains(e));
                    let d = choose|d: int| 0 <= d < init.len() && init[d] == e.0;
                    assert(domains[d] == e.0);
                } else {
                    assert(row[k - before.len()] == e);
                    assert(ports[k - before.len()] == e.1);
                    assert(domains[domains.len() - 1] == e.0);
                }
            }
            if domains.contains(e.0) && ports.contains(e.1) {
                let d = choose|d: int| 0 <= d < domains.len() && domains[d] == e.0;
                let p = choose|p: int| 0 <= p < ports.len() && ports[p] == e.1;
                if d < init.len() {
                    assert(init[d] == e.0);
                    assert(before.contains(e));
                    let k = choose|k: int| 0 <= k < before.len() && before[k] == e;
                    assert(all[k] == e);
                } else {
                    assert(row[p] == e);
                    assert(all[before.len() + p] == e);
                }
            }
        }
    } else {
        assert(domains.len() * ports.len() == 0) by (nonlinear_arith)
            requires
                domains.len() == 0,
        ;
    }
}

/// A resumed run leaves nothing out and does nothing twice: of the endpoints
/// asked for, exactly those that have not been scanned already are still to be.
pub proof fn lemma_resume_exact(
    domains: Seq<Seq<char>>,
    ports: Seq<u16>,
    scanned: Set<(Seq<char>, u16)>,
)
    ensures
        forall|e: (Seq<char>, u16)|
            #[trigger] remaining(domains, ports, scanned).contains(e) <==> domains.contains(e.0)
                && ports.contains(e.1) && !scanned.contains(e),
{
    let all = endpoints(domains, ports);
    let open = |e: (Seq<char>, u16)| !scanned.contains(e);
    lemma_endpoints(domains, ports);
    assert(remaining(domains, ports, scanned) == all.filter(open));
    assert forall|e: (Seq<char>, u16)| #![trigger all.filter(open).contains(e)]
        all.filter(open).contains(e) <==> all.contains(e) && open(e) by {
        if all.filter(open).contains(e) {
            all.lemma_filter_contains_rev(open, e);
            let i = choose|i: int| 0 <= i < all.filter(open).len() && all.filter(open)[i] == e;
            all.lemma_filter_pred(open, i);
        }
        if all.contains(e) && open(e) {
            let i = choose|i: int| 0 <= i < all.len() && all[i] == e;
            all.lemma_filter_contains(open, i);
        }
    }
}

/// A run from the start scans everything.
pub proof fn lemma_fresh_run_is_whole(domains: Seq<Seq<char>>, ports: Seq<u16>)
    ensures
        remaining(domains, ports, Set::empty()) == endpoints(domains, ports),
        remaining(domains, ports, Set::empty()).len() == domains.len() * ports.len(),
{
    let all = endpoints(domains, ports);
    lemma_endpoints(domains, ports);
    lemma_filter_keeps_all(all, |e: (Seq<char>, u16)| !Set::empty().contains(e));
}

/// A filter that everything passes changes nothing.
proof fn lemma_filter_keeps_all<A>(s: Seq<A>, keep: spec_fn(A) -> bool)
    requires
        forall|x: A| #[trigger] keep(x),
    ensures
        s.filter(keep) == s,
    decreases s.len(),
{
    reveal(Seq::filter);
    if s.len() > 0 {
        lemma_filter_keeps_all(s.drop_last(), keep);
        assert(s.drop_last().push(s.last()) =~= s);
    }
}

/// A number written in decimal is read back as what it was, and begins with no
/// sign.
proof fn lemma_decimal_number(n: nat)
    ensures
        number(decimal(n)) == n,
        decimal(n).len() > 0,
        all_digits(decimal(n)),
    decreases n,
{
    let s = decimal(n);
    let digit = n % 10;
    assert(is_digit(digit_char(digit)) && digit_value(digit_char(digit)) == digit);
    if n < 10 {
        assert(s.drop_last() =~= Seq::empty());
        assert(number(s.drop_last()) == 0);
    } else {
        lemma_decimal_number(n / 10);
        assert(s.drop_last() =~= decimal(n / 10));
        assert forall|i: int| 0 <= i < s.len() implies is_digit(#[trigger] s[i]) by {
            if i < s.len() - 1 {
                assert(s[i] == decimal(n / 10)[i]);
            }
        }
    }
}

/// A port written in decimal is read back as what it was.
pub proof fn lemma_port_roundtrip(port: u16)
    ensures
        port_number(decimal(port as nat)) == Some(port),
{
    lemma_decimal_number(port as nat);
    assert(is_digit(decimal(port as nat)[0]));
}

/// Whether rows are those of an output for some endpoints: the domain and the
/// port in decimal in the first two columns, whatever is in the others.
pub open spec fn rows_of(rows: Seq<Seq<Seq<char>>>, done: Seq<(Seq<char>, u16)>) -> bool {
    &&& rows.len() == done.len()
    &&& forall|i: int|
        0 <= i < rows.len() ==> {
            &&& (#[trigger] rows[i]).len() >= 2
            &&& rows[i][0] == done[i].0
            &&& rows[i][1] == decimal(done[i].1 as nat)
        }
}

/// A run that is resumed from its own output goes on with exactly the endpoints
/// that the output does not have.
pub proof fn lemma_resume_from_output(
    domains: Seq<Seq<char>>,
    ports: Seq<u16>,
    rows: Seq<Seq<Seq<char>>>,
    done: Seq<(Seq<char>, u16)>,
)
    requires
        rows_of(rows, done),
    ensures
        scanned_endpoints(rows) == done.to_set(),
        forall|e: (Seq<char>, u16)|
            #[trigger] remaining(domains, ports, scanned_endpoints(rows)).contains(e) <==> domains.contains(
                e.0,
            ) && ports.contains(e.1) && !done.contains(e),
{
    assert forall|e: (Seq<char>, u16)|
        scanned_endpoints(rows).contains(e) <==> done.to_set().contains(e) by {
        if scanned_endpoints(rows).contains(e) {
            let i = choose|i: int| 0 <= i < rows.len() && row_names(#[trigger] rows[i], e);
            lemma_port_roundtrip(done[i].1);
            assert(done[i] == e);
        }
        if done.contains(e) {
            let i = choose|i: int| 0 <= i < done.len() && done[i] == e;
            lemma_port_roundtrip(e.1);
            assert(row_names(rows[i], e));
        }
    }
    assert(scanned_endpoints(rows) =~= done.to_set());
    lemma_resume_exact(domains, ports, scanned_endpoints(rows));
    assert forall|e: (Seq<char>, u16)|
        #[trigger] remaining(domains, ports, scanned_endpoints(rows)).contains(e)
            <==> domains.contains(e.0) && ports.contains(e.1) && !done.contains(e) by {
        assert(done.contains(e) == done.to_set().contains(e));
    }
}

/// How a text is read as a port, character by character: a first digit stands
/// for itself, each further one makes ten times as much and itself, a plus sign
/// may come first, and whatever is no digit, or makes more than 65535, spoils it.
pub proof fn lemma_port_by_digits(s: Seq<char>, c: char)
    ensures
        port_number(Seq::empty()) is None,
        port_number(seq!['+']) is None,
        port_number(seq![c]) == if 0x30 <= c as int <= 0x39 {
            Some((c as int - 0x30) as u16)
        } else {
            None
        },
        port_number(seq!['+', c]) == port_number(seq![c]),
        s.len() > 0 && s != seq!['+'] ==> port_number(s.push(c)) == match port_number(s) {
            Some(port) => if 0x30 <= c as int <= 0x39 && 10 * port + (c as int - 0x30) <= 65535 {
                Some((10 * port + (c as int - 0x30)) as u16)
            } else {
                None
            },
            None => None,
        },
{
    let one = seq![c];
    assert(one.drop_last() =~= Seq::empty());
    assert(number(one.drop_last()) == 0);
    assert(number(one) == digit_value(c));
    assert(is_digit(c) ==> all_digits(one));
    assert(!is_digit(c) ==> !all_digits(one)) by {
        assert(one[0] == c);
    }
    assert(seq!['+'].drop_first() =~= Seq::<char>::empty());
    assert(seq!['+', c].drop_first() =~= one);
    if c == '+' {
        assert(one.drop_first() =~= Seq::<char>::empty());
    }
    if s.len() > 0 && s != seq!['+'] {
        let signed = s[0] == '+';
        let before = if signed {
            s.drop_first()
        } else {
            s
        };
        let after = if signed {
            s.push(c).drop_first()
        } else {
            s.push(c)
        };
        assert(signed && s.len() == 1 ==> s =~= seq!['+']);
        assert(after =~= before.push(c));
        assert(after.drop_last() =~= before);
        assert(all_digits(after) <==> all_digits(before) && is_digit(c)) by {
            if all_digits(after) {
                assert(after[before.len() as int] == c);
                assert forall|i: int| 0 <= i < before.len() implies is_digit(#[trigger] before[i]) by {
                    assert(after[i] == before[i]);
                }
            }
        }
    }
}

/// What passes of two lists, one after the other, is what passes of each.
proof fn lemma_filter_map_adds<A, B>(a: Seq<A>, b: Seq<A>, f: spec_fn(A) -> Option<B>)
    ensures
        (a + b).filter_map(f) == a.filter_map(f) + b.filter_map(f),
    decreases b.len(),
{
    if b.len() == 0 {
        assert(a + b =~= a);
        assert(b.filter_map(f) =~= Seq::empty());
        assert(a.filter_map(f) + b.filter_map(f) =~= a.filter_map(f));
    } else {
        lemma_filter_map_adds(a, b.drop_last(), f);
        assert((a + b).drop_last() =~= a + b.drop_last());
        assert((a + b).filter_map(f) =~= a.filter_map(f) + b.filter_map(f));
    }
}

/// A list of ports is read piece by piece: what stands before a comma and then
/// what stands after it, and a piece without a comma gives the port that it is
/// without the white space around it, or none.
pub proof fn lemma_port_list_by_pieces(a: Seq<char>, b: Seq<char>)
    ensures
        port_list(a.push(',') + b) == port_list(a) + port_list(b),
        !a.contains(',') ==> port_list(a) == match port_number(trim(a)) {
            Some(port) => seq![port],
            None => Seq::empty(),
        },
{
    let read = |piece: Seq<char>| port_number(trim(piece));
    lemma_split_concatenates(a, ',', b);
    lemma_filter_map_adds(split(a, ','), split(b, ','), read);
    if !a.contains(',') {
        lemma_split_whole(a, ',');
        Seq::lemma_filter_map_singleton(a, read);
    }
}

/// A line names a domain unless nothing is in it or it begins with a number sign.
pub proof fn lemma_lines_that_name_domains(line: Seq<char>)
    ensures
        !names_domain(Seq::empty()),
        !names_domain("#"@ + line),
        line.len() > 0 && line[0] as int != 0x23 ==> names_domain(line),
{
    reveal_strlit("#");
}

/// The columns of each row are the characters of its strings.
pub proof fn lemma_rows_are_characters(rows: Seq<Vec<String>>)
    ensures
        row_texts(rows).len() == rows.len(),
        forall|i: int, j: int|
            0 <= i < rows.len() && 0 <= j < rows[i]@.len() ==> #[trigger] row_texts(rows)[i][j]
                == rows[i]@[j]@,
        forall|i: int| 0 <= i < rows.len() ==> #[trigger] row_texts(rows)[i].len() == rows[i]@.len(),
{
}

/// The endpoints of tasks are their strings and ports, one by one.
pub proof fn lemma_tasks_are_endpoints(tasks: Seq<(String, u16)>)
    ensures
        task_views(tasks).len() == tasks.len(),
        forall|i: int|
            0 <= i < tasks.len() ==> #[trigger] task_views(tasks)[i] == (tasks[i].0@, tasks[i].1),
{
}

/// An endpoint has been scanned exactly if some row has its domain in the first
/// column and its port in the second.
pub proof fn lemma_scanned_is_in_a_row(rows: Seq<Seq<Seq<char>>>, domain: Seq<char>, port: u16)
    ensures
        scanned_endpoints(rows).contains((domain, port)) <==> exists|i: int|
            0 <= i < rows.len() && (#[trigger] rows[i]).len() >= 2 && rows[i][0] == domain
                && port_number(rows[i][1]) == Some(port),
{
    if scanned_endpoints(rows).contains((domain, port)) {
        let i = choose|i: int|
            0 <= i < rows.len() && row_names(#[trigger] rows[i], (domain, port));
        assert(rows[i].len() >= 2);
    }
    if exists|i: int|
        0 <= i < rows.len() && (#[trigger] rows[i]).len() >= 2 && rows[i][0] == domain
            && port_number(rows[i][1]) == Some(port) {
        let i = choose|i: int|
            0 <= i < rows.len() && (#[trigger] rows[i]).len() >= 2 && rows[i][0] == domain
                && port_number(rows[i][1]) == Some(port);
        assert(row_names(rows[i], (domain, port)));
    }
}

/// Where an endpoint stands among all: the first domain with each port in order,
/// then the second, and so on.
pub proof fn lemma_endpoint_positions(domains: Seq<Seq<char>>, ports: Seq<u16>, i: int, j: int)
    requires
        0 <= i < domains.len(),
        0 <= j < ports.len(),
    ensures
        0 <= i * ports.len() + j < endpoints(domains, ports).len(),
        endpoints(domains, ports)[i * ports.len() + j] == (domains[i], ports[j]),
    decreases domains.len(),
{
    let n = ports.len();
    let init = domains.drop_last();
    lemma_endpoints(domains, ports);
    lemma_endpoints(init, ports);
    assert(0 <= i * n + j < (i + 1) * n) by (nonlinear_arith)
        requires
            0 <= i,
            0 <= j < n,
    ;
    if i < init.len() {
        assert((i + 1) * n <= init.len() * n) by (nonlinear_arith)
            requires
                i + 1 <= init.len(),
        ;
        lemma_endpoint_positions(init, ports, i, j);
        assert(init.len() * n <= domains.len() * n) by (nonlinear_arith)
            requires
                init.len() <= domains.len(),
        ;
    } else {
        assert(i == init.len());
    }
}

/// What remains is made up domain by domain, and for each domain port by port:
/// an endpoint that has been scanned adds nothing and any other adds itself, once
/// and at the end.
pub proof fn lemma_remaining_grows(
    domains: Seq<Seq<char>>,
    domain: Seq<char>,
    ports: Seq<u16>,
    port: u16,
    scanned: Set<(Seq<char>, u16)>,
)
    ensures
        remaining(Seq::empty(), ports, scanned) == Seq::<(Seq<char>, u16)>::empty(),
        remaining(seq![domain], Seq::empty(), scanned) == Seq::<(Seq<char>, u16)>::empty(),
        remaining(domains.push(domain), ports, scanned) == remaining(domains, ports, scanned)
            + remaining(seq![domain], ports, scanned),
        remaining(seq![domain], ports.push(port), scanned) == if scanned.contains((domain, port)) {
            remaining(seq![domain], ports, scanned)
        } else {
            remaining(seq![domain], ports, scanned).push((domain, port))
        },
{
    let open = |e: (Seq<char>, u16)| !scanned.contains(e);
    let row = ports.map_values(|p: u16| (domain, p));
    let longer = ports.push(port).map_values(|p: u16| (domain, p));
    let none = Seq::<(Seq<char>, u16)>::empty();
    let one = seq![domain];
    reveal(Seq::filter);
    assert(one.drop_last() =~= Seq::empty());
    assert(one.last() == domain);
    assert(endpoints(one.drop_last(), ports) =~= none);
    assert(endpoints(one.drop_last(), ports.push(port)) =~= none);
    assert(endpoints(one, ports) =~= row);
    assert(endpoints(one.drop_last(), Seq::empty()) =~= none);
    assert(endpoints(one, Seq::empty()) =~= none);
    assert(endpoints(one, ports.push(port)) =~= longer);
    assert(longer =~= row.push((domain, port)));
    Seq::lemma_filter_push(row, (domain, port), open);
    assert(domains.push(domain).drop_last() =~= domains);
    assert(domains.push(domain).last() == domain);
    assert(endpoints(domains.push(domain), ports) =~= endpoints(domains, ports) + row);
    Seq::filter_distributes_over_add(endpoints(domains, ports), row, open);
    assert(none.filter(open) =~= none);
}

/// How often an endpoint remains: never if it has been scanned, and else as often
/// as it is asked for.
pub proof fn lemma_remaining_as_often(
    domains: Seq<Seq<char>>,
    ports: Seq<u16>,
    scanned: Set<(Seq<char>, u16)>,
    e: (Seq<char>, u16),
)
    ensures
        remaining(domains, ports, scanned).to_multiset().count(e) == if scanned.contains(e) {
            0
        } else {
            endpoints(domains, ports).to_multiset().count(e)
        },
{
    let open = |e: (Seq<char>, u16)| !scanned.contains(e);
    lemma_filter_counts(endpoints(domains, ports), open, e);
}

/// A filter keeps what passes as often as it occurs, and nothing else.
proof fn lemma_filter_counts<A>(s: Seq<A>, keep: spec_fn(A) -> bool, x: A)
    ensures
        s.filter(keep).to_multiset().count(x) == if keep(x) {
            s.to_multiset().count(x)
        } else {
            0
        },
    decreases s.len(),
{
    broadcast use vstd::seq_lib::group_to_multiset_ensures;

    reveal(Seq::filter);
    if s.len() > 0 {
        let init = s.drop_last();
        lemma_filter_counts(init, keep, x);
        assert(init.push(s.last()) =~= s);
        assert(s.filter(keep) == if keep(s.last()) {
            init.filter(keep).push(s.last())
        } else {
            init.filter(keep)
        });
    } else {
        assert(s.filter(keep) =~= s);
        s.to_multiset_ensures();
    }
}

/// Nothing is done twice: with no domain and no port given twice, no endpoint
/// remains more than once, whatever has been scanned.
pub proof fn lemma_nothing_twice(
    domains: Seq<Seq<char>>,
    ports: Seq<u16>,
    scanned: Set<(Seq<char>, u16)>,
)
    requires
        domains.no_duplicates(),
        ports.no_duplicates(),
    ensures
        endpoints(domains, ports).no_duplicates(),
        remaining(domains, ports, scanned).no_duplicates(),
{
    let all = endpoints(domains, ports);
    let open = |e: (Seq<char>, u16)| !scanned.contains(e);
    lemma_endpoints_distinct(domains, ports);
    lemma_filter_keeps_distinct(all, open);
}

/// With no domain and no port given twice, no endpoint is.
proof fn lemma_endpoints_distinct(domains: Seq<Seq<char>>, ports: Seq<u16>)
    requires
        domains.no_duplicates(),
        ports.no_duplicates(),
    ensures
        endpoints(domains, ports).no_duplicates(),
    decreases domains.len(),
{
    if domains.len() > 0 {
        let init = domains.drop_last();
        let before = endpoints(init, ports);
        let all = endpoints(domains, ports);
        lemma_endpoints_distinct(init, ports);
        lemma_endpoints(init, ports);
        assert forall|i: int, j: int| 0 <= i < j < all.len() implies all[i] != all[j] by {
            if j >= before.len() {
                assert(all[j] == (domains.last(), ports[j - before.len()]));
                if i < before.len() {
                    assert(before[i] == all[i]);
                    assert(before.contains(all[i]));
                    assert(init.contains(all[i].0));
                    let d = choose|d: int| 0 <= d < init.len() && init[d] == all[i].0;
                    assert(domains[d] != domains[domains.len() - 1]);
                } else {
                    assert(all[i] == (domains.last(), ports[i - before.len()]));
                }
            } else {
                assert(before[i] == all[i] && before[j] == all[j]);
            }
        }
    }
}

/// A filter brings nothing in twice.
proof fn lemma_filter_keeps_distinct<A>(s: Seq<A>, keep: spec_fn(A) -> bool)
    requires
        s.no_duplicates(),
    ensures
        s.filter(keep).no_duplicates(),
    decreases s.len(),
{
    reveal(Seq::filter);
    if s.len() > 0 {
        let init = s.drop_last();
        let kept = init.filter(keep);
        assert(init.no_duplicates());
        lemma_filter_keeps_distinct(init, keep);
        if keep(s.last()) {
            assert forall|i: int| 0 <= i < kept.len() implies kept[i] != s.last() by {
                assert(kept.contains(kept[i]));
                init.lemma_filter_contains_rev(keep, kept[i]);
                let k = choose|k: int| 0 <= k < init.len() && init[k] == kept[i];
                assert(s[k] != s[s.len() - 1]);
            }
        }
    }
}

} // verus!
