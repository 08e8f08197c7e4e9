//! The address book: parses downloaded `hosts.txt` subscriptions into a
//! `host = destination` mapping and serializes the mapping back to the
//! on-disk address-book file. Text is handled as bytes; downloading and
//! file I/O stay outside this crate.
//!
//! Each input line is `key=value`; keys and values are trimmed of ASCII
//! whitespace, a `#!` tail on the value is stripped, lines without `=` are
//! skipped, and keys already present are never overwritten.

use vstd::prelude::*;

use crate::wire::{push_all, sub_vec};

verus! {

/// ASCII whitespace, as trimming removes it.
pub open spec fn spec_is_ws(b: u8) -> bool {
    b == 32 || b == 9 || b == 10 || b == 13 || b == 11 || b == 12
}

/// `s` without leading whitespace.
pub open spec fn spec_trim_start(s: Seq<u8>) -> Seq<u8>
    decreases s.len(),
{
    if s.len() > 0 && spec_is_ws(s[0]) {
        spec_trim_start(s.drop_first())
    } else {
        s
    }
}

/// `s` without trailing whitespace.
pub open spec fn spec_trim_end(s: Seq<u8>) -> Seq<u8>
    decreases s.len(),
{
    if s.len() > 0 && spec_is_ws(s[s.len() - 1]) {
        spec_trim_end(s.drop_last())
    } else {
        s
    }
}

/// `s` without leading or trailing whitespace.
pub open spec fn spec_trim(s: Seq<u8>) -> Seq<u8> {
    spec_trim_end(spec_trim_start(s))
}

/// The first index where `b` occurs in `s`, if any.
pub open spec fn spec_find(s: Seq<u8>, b: u8) -> Option<int>
    decreases s.len(),
{
    if s.len() == 0 {
        None
    } else if s[0] == b {
        Some(0)
    } else {
        match spec_find(s.drop_first(), b) {
            Some(i) => Some(i + 1),
            None => None,
        }
    }
}

/// The first index where the two-byte comment introducer `#!` occurs.
pub open spec fn spec_find_comment(s: Seq<u8>) -> Option<int>
    decreases s.len(),
{
    if s.len() < 2 {
        None
    } else if s[0] == 35 && s[1] == 33 {
        Some(0)
    } else {
        match spec_find_comment(s.drop_first()) {
            Some(i) => Some(i + 1),
            None => None,
        }
    }
}

/// Where `spec_find` points, the byte stands, inside the buffer.
pub proof fn lemma_find_bounds(s: Seq<u8>, b: u8)
    ensures
        spec_find(s, b) matches Some(i) ==> 0 <= i < s.len() && s[i] == b,
    decreases s.len(),
{
    if s.len() > 0 && s[0] != b {
        lemma_find_bounds(s.drop_first(), b);
    }
}

/// As [`lemma_find_bounds`], for the comment introducer.
pub proof fn lemma_find_comment_bounds(s: Seq<u8>)
    ensures
        spec_find_comment(s) matches Some(i) ==> 0 <= i && i + 2 <= s.len() && s[i] == 35 && s[i
            + 1] == 33,
    decreases s.len(),
{
    if s.len() >= 2 && !(s[0] == 35 && s[1] == 33) {
        lemma_find_comment_bounds(s.drop_first());
    }
}

/// The lines of `s`, split on newline bytes.
pub open spec fn spec_lines(s: Seq<u8>) -> Seq<Seq<u8>>
    decreases s.len(),
    via spec_lines_decreases
{
    match spec_find(s, 10) {
        Some(i) => seq![s.subrange(0, i)] + spec_lines(s.skip(i + 1)),
        None => seq![s],
    }
}

#[via_fn]
proof fn spec_lines_decreases(s: Seq<u8>) {
    lemma_find_bounds(s, 10);
}

/// The value of a line's right-hand side: a `#!` comment tail stripped,
/// whitespace trimmed.
pub open spec fn spec_clean_value(v: Seq<u8>) -> Seq<u8> {
    match spec_find_comment(v) {
        Some(i) => spec_trim(v.subrange(0, i)),
        None => spec_trim(v),
    }
}

/// Whether the mapping holds `key`.
pub open spec fn spec_has_key(m: Seq<(Seq<u8>, Seq<u8>)>, key: Seq<u8>) -> bool {
    exists|i: int| 0 <= i < m.len() && (#[trigger] m[i]).0 == key
}

/// The value bound to `key`, from the earliest entry.
pub open spec fn spec_lookup(m: Seq<(Seq<u8>, Seq<u8>)>, key: Seq<u8>) -> Option<Seq<u8>>
    decreases m.len(),
{
    if m.len() == 0 {
        None
    } else if m[0].0 == key {
        Some(m[0].1)
    } else {
        spec_lookup(m.drop_first(), key)
    }
}

/// One line folded into the mapping: lines without `=` and keys already
/// present leave it unchanged.
pub open spec fn spec_merge_line(m: Seq<(Seq<u8>, Seq<u8>)>, line: Seq<u8>) -> Seq<
    (Seq<u8>, Seq<u8>),
> {
    match spec_find(line, 61) {
        None => m,
        Some(i) => {
            let key = spec_trim(line.subrange(0, i));
            if spec_has_key(m, key) {
                m
            } else {
                m.push((key, spec_clean_value(line.skip(i + 1))))
            }
        },
    }
}

/// All lines folded into the mapping, first line first.
pub open spec fn spec_merge_lines(m: Seq<(Seq<u8>, Seq<u8>)>, lines: Seq<Seq<u8>>) -> Seq<
    (Seq<u8>, Seq<u8>),
>
    decreases lines.len(),
{
    if lines.len() == 0 {
        m
    } else {
        spec_merge_lines(spec_merge_line(m, lines[0]), lines.drop_first())
    }
}

/// The on-disk form of the mapping: `key=value\n` per entry, in order.
pub open spec fn spec_serialize_map(m: Seq<(Seq<u8>, Seq<u8>)>) -> Seq<u8>
    decreases m.len(),
{
    if m.len() == 0 {
        Seq::empty()
    } else {
        m[0].0 + seq![61u8] + m[0].1 + seq![10u8] + spec_serialize_map(m.drop_first())
    }
}

/// The first index at or after `from` where `b` occurs, if any.
fn find_byte(s: &Vec<u8>, from: usize, b: u8) -> (r: Option<usize>)
    requires
        from <= s@.len(),
    ensures
        match r {
            Some(i) => from <= i < s@.len() && spec_find(s@.skip(from as int), b) == Some(
                i - from,
            ),
            None => spec_find(s@.skip(from as int), b) is None,
        },
    decreases s@.len() - from,
{
    let n: usize = s.len();
    if from == n {
        None
    } else if s[from] == b {
        proof {
            assert(s@.skip(from as int)[0] == s@[from as int]);
        }
        Some(from)
    } else {
        let r = find_byte(s, from + 1, b);
        proof {
            assert(s@.skip(from as int).drop_first() =~= s@.skip(from + 1));
        }
        r
    }
}

/// The first index at or after `from` where `#!` occurs, if any.
fn find_comment(s: &Vec<u8>, from: usize) -> (r: Option<usize>)
    requires
        from <= s@.len(),
    ensures
        match r {
            Some(i) => from <= i && i + 2 <= s@.len() && spec_find_comment(s@.skip(from as int))
                == Some(i - from),
            None => spec_find_comment(s@.skip(from as int)) is None,
        },
    decreases s@.len() - from,
{
    let n: usize = s.len();
    if n - from < 2 {
        None
    } else if s[from] == 35 && s[from + 1] == 33 {
        proof {
            assert(s@.skip(from as int)[0] == s@[from as int]);
            assert(s@.skip(from as int)[1] == s@[from + 1]);
        }
        Some(from)
    } else {
        let r = find_comment(s, from + 1);
        proof {
            assert(s@.skip(from as int).drop_first() =~= s@.skip(from + 1));
        }
        r
    }
}

/// Whether `b` is ASCII whitespace.
fn is_ws(b: u8) -> (r: bool)
    ensures
        r == spec_is_ws(b),
{
    b == 32 || b == 9 || b == 10 || b == 13 || b == 11 || b == 12
}

/// A copy of `s[from..to]` with leading and trailing whitespace removed.
fn trim_range(s: &Vec<u8>, from: usize, to: usize) -> (r: Vec<u8>)
    requires
        from <= to <= s@.len(),
    ensures
        r@ == spec_trim(s@.subrange(from as int, to as int)),
{
    let ghost sub = s@.subrange(from as int, to as int);
    let mut lo = from;
    let mut hi = to;
    while lo < hi && is_ws(s[lo])
        invariant
            from <= lo <= hi <= s@.len(),
            hi == to,
            spec_trim_start(sub) == spec_trim_start(s@.subrange(lo as int, hi as int)),
        decreases hi - lo,
    {
        proof {
            let cur = s@.subrange(lo as int, hi as int);
            assert(cur[0] == s@[lo as int]);
            assert(cur.drop_first() =~= s@.subrange(lo + 1, hi as int));
        }
        lo = lo + 1;
    }
    proof {
        let cur = s@.subrange(lo as int, hi as int);
        if cur.len() > 0 {
            assert(cur[0] == s@[lo as int]);
        }
        assert(spec_trim_start(cur) == cur);
    }
    while lo < hi && is_ws(s[hi - 1])
        invariant
            from <= lo <= hi <= to <= s@.len(),
            spec_trim_end(spec_trim_start(sub)) == spec_trim_end(
                s@.subrange(lo as int, hi as int),
            ),
        decreases hi - lo,
    {
        proof {
            let cur = s@.subrange(lo as int, hi as int);
            assert(cur[cur.len() - 1] == s@[hi - 1]);
            assert(cur.drop_last() =~= s@.subrange(lo as int, hi - 1));
        }
        hi = hi - 1;
    }
    proof {
        let cur = s@.subrange(lo as int, hi as int);
        if cur.len() > 0 {
            assert(cur[cur.len() - 1] == s@[hi - 1]);
        }
        assert(spec_trim_end(cur) == cur);
    }
    sub_vec(s, lo, hi)
}

/// A `host → destination` mapping: entries in insertion order, keys unique.
pub struct AddressMap {
    entries: Vec<(Vec<u8>, Vec<u8>)>,
}

impl AddressMap {
    /// The entries as sequences.
    pub closed spec fn view(&self) -> Seq<(Seq<u8>, Seq<u8>)> {
        self.entries@.map_values(|e: (Vec<u8>, Vec<u8>)| (e.0@, e.1@))
    }

    /// An empty mapping.
    pub fn new() -> (r: Self)
        ensures
            r@ == Seq::<(Seq<u8>, Seq<u8>)>::empty(),
    {
        let r = AddressMap { entries: Vec::new() };
        proof {
            assert(r@ =~= Seq::<(Seq<u8>, Seq<u8>)>::empty());
        }
        r
    }

    /// How many hosts are mapped.
    pub fn len(&self) -> (r: usize)
        ensures
            r == self@.len(),
    {
        self.entries.len()
    }

    /// Whether `key` is mapped.
    pub fn contains_key(&self, key: &Vec<u8>) -> (r: bool)
        ensures
            r == spec_has_key(self@, key@),
    {
        let n: usize = self.entries.len();
        let mut i: usize = 0;
        while i < n
            invariant
                i <= n,
                n == self@.len(),
                forall|j: int| 0 <= j < i ==> (#[trigger] self@[j]).0 != key@,
            decreases n - i,
        {
            if vecs_equal(&self.entries[i].0, key) {
                proof {
                    assert(self@[i as int].0 == key@);
                }
                return true;
            }
            i = i + 1;
        }
        false
    }

    /// The destination mapped to `key`, if any.
    pub fn get(&self, key: &Vec<u8>) -> (r: Option<&Vec<u8>>)
        ensures
            match r {
                Some(v) => spec_lookup(self@, key@) == Some(v@),
                None => spec_lookup(self@, key@) is None,
            },
    {
        proof {
            assert(self@.skip(0) =~= self@);
        }
        let n: usize = self.entries.len();
        let mut i: usize = 0;
        while i < n
            invariant
                i <= n,
                n == self@.len(),
                forall|j: int| 0 <= j < i ==> (#[trigger] self@[j]).0 != key@,
                spec_lookup(self@, key@) == spec_lookup(self@.skip(i as int), key@),
            decreases n - i,
        {
            proof {
                assert(self@.skip(i as int)[0] == self@[i as int]);
                assert(self@.skip(i as int).drop_first() =~= self@.skip(i + 1));
            }
            if vecs_equal(&self.entries[i].0, key) {
                return Some(&self.entries[i].1);
            }
            i = i + 1;
        }
        proof {
            assert(self@.skip(n as int) =~= Seq::<(Seq<u8>, Seq<u8>)>::empty());
        }
        None
    }
}

/// Whether two byte vectors hold the same bytes.
fn vecs_equal(a: &Vec<u8>, b: &Vec<u8>) -> (r: bool)
    ensures
        r == (a@ == b@),
{
    let n: usize = a.len();
    if n != b.len() {
        proof {
            assert(a@.len() != b@.len());
        }
        return false;
    }
    let mut i: usize = 0;
    while i < n
        invariant
            i <= n,
            n == a@.len() && n == b@.len(),
            forall|j: int| 0 <= j < i ==> a@[j] == b@[j],
        decreases n - i,
    {
        if a[i] != b[i] {
            return false;
        }
        i = i + 1;
    }
    proof {
        assert(a@ =~= b@);
    }
    true
}

/// The bytes of the address-book file path below the base directory.
pub open spec fn spec_book_suffix() -> Seq<u8> {
    seq![
        47u8,
        97u8,
        100u8,
        100u8,
        114u8,
        101u8,
        115u8,
        115u8,
        98u8,
        111u8,
        111u8,
        107u8,
        47u8,
        97u8,
        100u8,
        100u8,
        114u8,
        101u8,
        115u8,
        115u8,
        101u8,
        115u8,
    ]
}

/// Address book manager: holds the book's path and the subscription URLs,
/// and folds downloaded hosts files into the mapping. Downloading and file
/// I/O happen outside; this type does the parsing and the merging.
pub struct AddressBookManager {
    /// Path to the address-book file, as bytes.
    address_book_path: Vec<u8>,
    /// URL the primary `hosts.txt` is downloaded from, as bytes.
    hosts_url: Vec<u8>,
    /// Additional subscription URLs.
    subscriptions: Vec<Vec<u8>>,
}

impl AddressBookManager {
    /// The book's path.
    pub closed spec fn path(&self) -> Seq<u8> {
        self.address_book_path@
    }

    /// The primary subscription URL.
    pub closed spec fn url(&self) -> Seq<u8> {
        self.hosts_url@
    }

    /// The additional subscription URLs.
    pub closed spec fn subs(&self) -> Seq<Seq<u8>> {
        self.subscriptions@.map_values(|v: Vec<u8>| v@)
    }

    /// Create a new `AddressBookManager` below `base_path`.
    pub fn new(base_path: Vec<u8>, hosts_url: Vec<u8>, subscriptions: Vec<Vec<u8>>) -> (r: Self)
        ensures
            r.path() == base_path@ + spec_book_suffix(),
            r.url() == hosts_url@,
            r.subs() == subscriptions@.map_values(|v: Vec<u8>| v@),
    {
        let mut address_book_path = base_path;
        let suffix: Vec<u8> = vec![
            47u8,
            97,
            100,
            100,
            114,
            101,
            115,
            115,
            98,
            111,
            111,
            107,
            47,
            97,
            100,
            100,
            114,
            101,
            115,
            115,
            101,
            115,
        ];
        proof {
            assert(suffix@ =~= spec_book_suffix());
        }
        push_all(&mut address_book_path, &suffix);
        AddressBookManager { address_book_path, hosts_url, subscriptions }
    }

    /// Get a handle that resolves hosts against the book's path.
    pub fn handle(&self) -> (r: AddressBookHandle)
        ensures
            r.path() == self.path(),
    {
        let address_book_path = sub_vec(&self.address_book_path, 0, self.address_book_path.len());
        proof {
            assert(address_book_path@ =~= self.address_book_path@);
        }
        AddressBookHandle { address_book_path }
    }

    /// The book's path, for the caller that writes the file.
    pub fn path_bytes(&self) -> (r: Vec<u8>)
        ensures
            r@ == self.path(),
    {
        let r = sub_vec(&self.address_book_path, 0, self.address_book_path.len());
        proof {
            assert(r@ =~= self.address_book_path@);
        }
        r
    }

    /// The primary subscription URL, for the caller that downloads it.
    pub fn url_bytes(&self) -> (r: Vec<u8>)
        ensures
            r@ == self.url(),
    {
        let r = sub_vec(&self.hosts_url, 0, self.hosts_url.len());
        proof {
            assert(r@ =~= self.hosts_url@);
        }
        r
    }

    /// The additional subscription URLs, for the caller that downloads
    /// them.
    pub fn subscription_urls(&self) -> (r: &Vec<Vec<u8>>)
        ensures
            r@.map_values(|v: Vec<u8>| v@) == self.subs(),
    {
        &self.subscriptions
    }

    /// Parse `hosts` into `key=value` entries and merge them into
    /// `addresses`; keys already present are kept. Returns the serialized
    /// mapping, ready to be written to the address-book file.
    pub fn parse_and_merge(&self, addresses: &mut AddressMap, hosts: &Vec<u8>) -> (r: Vec<u8>)
        ensures
            final(addresses)@ == spec_merge_lines(old(addresses)@, spec_lines(hosts@)),
            r@ == spec_serialize_map(final(addresses)@),
    {
        merge_hosts(addresses, hosts);
        serialize_map(addresses)
    }
}

/// Fold one line, `hosts[from..to]`, into the mapping.
fn merge_one_line(addresses: &mut AddressMap, hosts: &Vec<u8>, from: usize, to: usize)
    requires
        from <= to <= hosts@.len(),
    ensures
        final(addresses)@ == spec_merge_line(
            old(addresses)@,
            hosts@.subrange(from as int, to as int),
        ),
{
    let _bound: usize = hosts.len();
    let ghost line = hosts@.subrange(from as int, to as int);
    let found = find_byte(hosts, from, 61);
    proof {
        lemma_find_in_subrange(hosts@, from as int, to as int, 61);
    }
    let has_eq = match found {
        Some(i) => i < to,
        None => false,
    };
    if !has_eq {
        proof {
            assert(spec_find(line, 61) is None);
        }
        return ;
    }
    let eq = match found {
        Some(i) => i,
        None => 0,
    };
    let key = trim_range(hosts, from, eq);
    proof {
        assert(line.subrange(0, eq - from) =~= hosts@.subrange(from as int, eq as int));
    }
    if addresses.contains_key(&key) {
        proof {
            assert(spec_find(line, 61) == Some(eq - from));
            assert(spec_merge_line(addresses@, line) == addresses@);
        }
        return ;
    }
    let comment = find_comment(hosts, eq + 1);
    let value_end = match comment {
        Some(c) if c + 2 <= to => c,
        _ => to,
    };
    proof {
        lemma_find_comment_in_subrange(hosts@, eq + 1, to as int);
    }
    let value = trim_range(hosts, eq + 1, value_end);
    proof {
        let i = eq - from;
        assert(line.subrange(0, i as int) =~= hosts@.subrange(from as int, eq as int));
        assert(line.skip(i + 1) =~= hosts@.subrange(eq + 1, to as int));
        match comment {
            Some(c) => {
                if c + 2 <= to {
                    assert(line.skip(i + 1).subrange(0, c - (eq + 1)) =~= hosts@.subrange(
                        eq + 1,
                        c as int,
                    ));
                }
            },
            None => {},
        }
    }
    addresses.entries_push(key, value);
}

/// The position `spec_find` names inside a subrange agrees with the
/// position `find_byte` names inside the whole buffer.
proof fn lemma_find_in_subrange(s: Seq<u8>, from: int, to: int, b: u8)
    requires
        0 <= from <= to <= s.len(),
    ensures
        spec_find(s.subrange(from, to), b) == match spec_find(s.skip(from), b) {
            Some(i) => if i < to - from {
                Some(i)
            } else {
                None
            },
            None => None,
        },
    decreases to - from,
{
    let sub = s.subrange(from, to);
    let tail = s.skip(from);
    lemma_find_bounds(sub, b);
    lemma_find_bounds(tail, b);
    if from == to {
        assert(sub.len() == 0);
    } else {
        assert(sub[0] == s[from]);
        assert(tail[0] == s[from]);
        if s[from] == b {
        } else {
            lemma_find_in_subrange(s, from + 1, to, b);
            assert(sub.drop_first() =~= s.subrange(from + 1, to));
            assert(tail.drop_first() =~= s.skip(from + 1));
            lemma_find_bounds(s.subrange(from + 1, to), b);
            lemma_find_bounds(s.skip(from + 1), b);
        }
    }
}

/// As [`lemma_find_in_subrange`], for the `#!` comment introducer: inside
/// the value slice a comment is found exactly where the whole-buffer search
/// finds it, provided it lies before the line's end.
proof fn lemma_find_comment_in_subrange(s: Seq<u8>, from: int, to: int)
    requires
        0 <= from <= to <= s.len(),
    ensures
        spec_find_comment(s.subrange(from, to)) == match spec_find_comment(s.skip(from)) {
            Some(i) => if i + 2 <= to - from {
                Some(i)
            } else {
                None
            },
            None => None,
        },
    decreases to - from,
{
    let sub = s.subrange(from, to);
    let tail = s.skip(from);
    lemma_find_comment_bounds(sub);
    lemma_find_comment_bounds(tail);
    if to - from < 2 {
        assert(sub.len() < 2);
    } else {
        assert(sub[0] == s[from] && sub[1] == s[from + 1]);
        assert(tail[0] == s[from] && tail[1] == s[from + 1]);
        if s[from] == 35 && s[from + 1] == 33 {
        } else {
            lemma_find_comment_in_subrange(s, from + 1, to);
            assert(sub.drop_first() =~= s.subrange(from + 1, to));
            assert(tail.drop_first() =~= s.skip(from + 1));
            lemma_find_comment_bounds(s.subrange(from + 1, to));
            lemma_find_comment_bounds(s.skip(from + 1));
        }
    }
}

/// Fold every line of `hosts` into the mapping.
fn merge_hosts(addresses: &mut AddressMap, hosts: &Vec<u8>)
    ensures
        final(addresses)@ == spec_merge_lines(old(addresses)@, spec_lines(hosts@)),
{
    merge_hosts_from(addresses, hosts, 0);
    proof {
        assert(hosts@.skip(0) =~= hosts@);
    }
}

/// Fold the lines of `hosts[at..]` into the mapping.
fn merge_hosts_from(addresses: &mut AddressMap, hosts: &Vec<u8>, at: usize)
    requires
        at <= hosts@.len(),
    ensures
        final(addresses)@ == spec_merge_lines(old(addresses)@, spec_lines(hosts@.skip(at as int))),
    decreases hosts@.len() - at,
{
    let n: usize = hosts.len();
    match find_byte(hosts, at, 10) {
        Some(i) => {
            let ghost m0 = addresses@;
            merge_one_line(addresses, hosts, at, i);
            let ghost m1 = addresses@;
            merge_hosts_from(addresses, hosts, i + 1);
            proof {
                let s = hosts@.skip(at as int);
                assert(spec_find(s, 10) == Some(i - at));
                let lines = spec_lines(s);
                assert(lines == seq![s.subrange(0, i - at)] + spec_lines(s.skip(i - at + 1)));
                assert(s.subrange(0, i - at) =~= hosts@.subrange(at as int, i as int));
                assert(s.skip(i - at + 1) =~= hosts@.skip(i + 1));
                assert(lines[0] == s.subrange(0, i - at));
                assert(lines.drop_first() =~~= spec_lines(hosts@.skip(i + 1)));
                assert(m1 == spec_merge_line(m0, lines[0]));
                assert(addresses@ == spec_merge_lines(m1, lines.drop_first()));
                assert(spec_merge_lines(m0, lines) == spec_merge_lines(m1, lines.drop_first()));
            }
        },
        None => {
            let ghost m0 = addresses@;
            merge_one_line(addresses, hosts, at, n);
            proof {
                let s = hosts@.skip(at as int);
                assert(spec_lines(s) == seq![s]);
                assert(hosts@.subrange(at as int, n as int) =~= s);
                assert(addresses@ == spec_merge_line(m0, s));
                assert(spec_lines(s).drop_first() =~= Seq::<Seq<u8>>::empty());
                assert(spec_merge_lines(m0, spec_lines(s)) == spec_merge_lines(
                    spec_merge_line(m0, s),
                    spec_lines(s).drop_first(),
                ));
            }
        },
    }
}

impl AddressMap {
    /// Append an entry; the caller has checked the key is absent.
    fn entries_push(&mut self, key: Vec<u8>, value: Vec<u8>)
        ensures
            final(self)@ == old(self)@.push((key@, value@)),
    {
        self.entries.push((key, value));
        proof {
            assert(self@ =~= old(self)@.push((key@, value@)));
        }
    }
}

/// Serialize the mapping as `key=value` lines.
fn serialize_map(addresses: &AddressMap) -> (r: Vec<u8>)
    ensures
        r@ == spec_serialize_map(addresses@),
{
    let r = serialize_map_from(addresses, 0);
    proof {
        assert(addresses@.skip(0) =~= addresses@);
    }
    r
}

/// Serialize the entries from index `at` on.
fn serialize_map_from(addresses: &AddressMap, at: usize) -> (r: Vec<u8>)
    requires
        at <= addresses@.len(),
    ensures
        r@ == spec_serialize_map(addresses@.skip(at as int)),
    decreases addresses@.len() - at,
{
    let n: usize = addresses.len();
    if at == n {
        let r: Vec<u8> = Vec::new();
        proof {
            assert(addresses@.skip(at as int) =~= Seq::<(Seq<u8>, Seq<u8>)>::empty());
        }
        r
    } else {
        let mut r: Vec<u8> = Vec::new();
        let entry = addresses.entry_at(at);
        push_all(&mut r, entry.0);
        r.push(61u8);
        push_all(&mut r, entry.1);
        r.push(10u8);
        let mut tail = serialize_map_from(addresses, at + 1);
        r.append(&mut tail);
        proof {
            let s = addresses@.skip(at as int);
            assert(s[0] == addresses@[at as int]);
            assert(s.drop_first() =~= addresses@.skip(at + 1));
            assert(r@ =~= spec_serialize_map(s));
        }
        r
    }
}

impl AddressMap {
    /// Borrow the entry at `i`.
    fn entry_at(&self, i: usize) -> (r: (&Vec<u8>, &Vec<u8>))
        requires
            i < self@.len(),
        ensures
            r.0@ == self@[i as int].0,
            r.1@ == self@[i as int].1,
    {
        (&self.entries[i].0, &self.entries[i].1)
    }
}

/// Resolves a host against the saved address-book contents.
pub struct AddressBookHandle {
    /// Path to the address-book file, as bytes.
    address_book_path: Vec<u8>,
}

impl AddressBookHandle {
    /// The book's path.
    pub closed spec fn path(&self) -> Seq<u8> {
        self.address_book_path@
    }

    /// The book's path, for the caller that reads the file.
    pub fn path_bytes(&self) -> (r: Vec<u8>)
        ensures
            r@ == self.path(),
    {
        let r = sub_vec(&self.address_book_path, 0, self.address_book_path.len());
        proof {
            assert(r@ =~= self.address_book_path@);
        }
        r
    }

    /// What resolving `host` against file contents yields: the value of the
    /// first `key=value` line whose trimmed key equals the host.
    pub open spec fn spec_resolve(contents: Seq<u8>, host: Seq<u8>) -> Option<Seq<u8>> {
        spec_resolve_lines(spec_lines(contents), host)
    }

    /// Resolve `host` against the address-book file contents handed in by
    /// the caller that read the file.
    pub fn resolve(&self, contents: &Vec<u8>, host: &Vec<u8>) -> (r: Option<Vec<u8>>)
        ensures
            match r {
                Some(v) => Self::spec_resolve(contents@, host@) == Some(v@),
                None => Self::spec_resolve(contents@, host@) is None,
            },
    {
        let r = resolve_from(contents, host, 0);
        proof {
            assert(contents@.skip(0) =~= contents@);
        }
        r
    }
}

/// The first match for `host` among the lines.
pub open spec fn spec_resolve_lines(lines: Seq<Seq<u8>>, host: Seq<u8>) -> Option<Seq<u8>>
    decreases lines.len(),
{
    if lines.len() == 0 {
        None
    } else {
        match spec_resolve_line(lines[0], host) {
            Some(v) => Some(v),
            None => spec_resolve_lines(lines.drop_first(), host),
        }
    }
}

/// The value if this line's trimmed key equals `host`.
pub open spec fn spec_resolve_line(line: Seq<u8>, host: Seq<u8>) -> Option<Seq<u8>> {
    match spec_find(line, 61) {
        None => None,
        Some(i) => if spec_trim(line.subrange(0, i)) == host {
            Some(spec_trim(line.skip(i + 1)))
        } else {
            None
        },
    }
}

/// Resolve `host` among the lines of `contents[at..]`.
fn resolve_from(contents: &Vec<u8>, host: &Vec<u8>, at: usize) -> (r: Option<Vec<u8>>)
    requires
        at <= contents@.len(),
    ensures
        match r {
            Some(v) => spec_resolve_lines(spec_lines(contents@.skip(at as int)), host@) == Some(
                v@,
            ),
            None => spec_resolve_lines(spec_lines(contents@.skip(at as int)), host@) is None,
        },
    decreases contents@.len() - at,
{
    let n: usize = contents.len();
    let (line_end, has_more) = match find_byte(contents, at, 10) {
        Some(i) => (i, true),
        None => (n, false),
    };
    let ghost s = contents@.skip(at as int);
    proof {
        if has_more {
            assert(s.subrange(0, line_end - at) =~= contents@.subrange(
                at as int,
                line_end as int,
            ));
        } else {
            assert(s.subrange(0, s.len() as int) =~= s);
            assert(s =~= contents@.subrange(at as int, n as int));
        }
    }
    let value = resolve_line(contents, host, at, line_end);
    proof {
        if has_more {
            assert(spec_lines(s)[0] == s.subrange(0, line_end - at));
        } else {
            assert(spec_lines(s) == seq![s]);
            assert(spec_lines(s)[0] == s);
        }
    }
    match value {
        Some(v) => Some(v),
        None => {
            if has_more {
                let r = resolve_from(contents, host, line_end + 1);
                proof {
                    assert(s.skip(line_end - at + 1) =~= contents@.skip(line_end + 1));
                    assert(spec_lines(s).drop_first() =~~= spec_lines(
                        contents@.skip(line_end + 1),
                    ));
                }
                r
            } else {
                proof {
                    assert(spec_find(s, 10) is None);
                    assert(s == contents@.subrange(at as int, n as int));
                    assert(spec_resolve_line(s, host@) is None);
                    let lines = spec_lines(s);
                    assert(lines == seq![s]);
                    assert(lines[0] == s);
                    assert(lines.drop_first() =~= Seq::<Seq<u8>>::empty());
                    assert(spec_resolve_lines(lines.drop_first(), host@) is None);
                    assert(spec_resolve_lines(lines, host@) is None);
                }
                None
            }
        },
    }
}

/// Resolve `host` against the line `contents[from..to]`.
fn resolve_line(contents: &Vec<u8>, host: &Vec<u8>, from: usize, to: usize) -> (r: Option<Vec<u8>>)
    requires
        from <= to <= contents@.len(),
    ensures
        match r {
            Some(v) => spec_resolve_line(contents@.subrange(from as int, to as int), host@)
                == Some(v@),
            None => spec_resolve_line(contents@.subrange(from as int, to as int), host@) is None,
        },
{
    let ghost line = contents@.subrange(from as int, to as int);
    let found = find_byte(contents, from, 61);
    proof {
        lemma_find_in_subrange(contents@, from as int, to as int, 61);
    }
    let eq = match found {
        Some(i) if i < to => i,
        _ => {
            proof {
                assert(spec_find(line, 61) is None);
            }
            return None;
        },
    };
    let key = trim_range(contents, from, eq);
    proof {
        assert(line.subrange(0, eq - from) =~= contents@.subrange(from as int, eq as int));
    }
    if vecs_equal(&key, host) {
        proof {
            assert(line.skip(eq - from + 1) =~= contents@.subrange(eq + 1, to as int));
        }
        Some(trim_range(contents, eq + 1, to))
    } else {
        None
    }
}

} // verus!
