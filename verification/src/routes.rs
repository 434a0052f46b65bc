//! The route table: the immutable mapping from virtual paths to local file
//! paths, built once from the startup configuration and then only read.
//!
//! Configuration tokens come in pairs: a local path fragment, then the
//! virtual path to serve it under. A later pair for the same virtual path
//! silently overwrites the earlier one (last wins), so a finished table holds
//! exactly one entry per virtual path.

use crate::bytes::{bytes_eq, clone_bytes, append_bytes};
use crate::errors::ConfigError;
use vstd::prelude::*;

verus! {

/// The byte that begins every virtual path: ASCII `/`.
pub const SLASH: u8 = 47;

/// One entry of the table: a virtual path, and the local path whose bytes
/// are served for it. Both are plain byte strings.
#[derive(Debug)]
pub struct Route {
    pub virtual_path: Vec<u8>,
    pub local_path: Vec<u8>,
}

impl Route {
    /// The virtual path, as a byte string.
    pub open spec fn vp(self) -> Seq<u8> {
        self.virtual_path@
    }

    /// The local path, as a byte string.
    pub open spec fn lp(self) -> Seq<u8> {
        self.local_path@
    }
}

/// A byte string that can stand as a virtual path: nonempty, beginning
/// with `/`.
pub open spec fn is_virtual_path(p: Seq<u8>) -> bool {
    p.len() > 0 && p[0] == SLASH
}

/// Path resolution against the working directory: an absolute fragment
/// stands alone; a relative one hangs off `cwd` behind a separator.
pub open spec fn spec_join(cwd: Seq<u8>, fragment: Seq<u8>) -> Seq<u8> {
    if fragment.len() > 0 && fragment[0] == SLASH {
        fragment
    } else {
        cwd + seq![SLASH] + fragment
    }
}

/// Resolves a local path fragment against the working directory.
pub fn join_path(cwd: &Vec<u8>, fragment: &Vec<u8>) -> (r: Vec<u8>)
    ensures
        r@ == spec_join(cwd@, fragment@),
{
    if fragment.len() > 0 && fragment[0] == SLASH {
        clone_bytes(fragment)
    } else {
        let mut r = clone_bytes(cwd);
        r.push(SLASH);
        append_bytes(&mut r, fragment);
        proof {
            assert(cwd@.push(SLASH) + fragment@ =~= cwd@ + seq![SLASH] + fragment@);
        }
        r
    }
}

/// Last-wins lookup over a list of routes: the latest entry for `p` decides.
pub open spec fn seq_lookup(s: Seq<Route>, p: Seq<u8>) -> Option<Seq<u8>>
    decreases s.len(),
{
    if s.len() == 0 {
        None
    } else if s.last().vp() == p {
        Some(s.last().lp())
    } else {
        seq_lookup(s.drop_last(), p)
    }
}

/// A list of routes none of which carries the virtual path `p` resolves
/// nothing for `p`.
proof fn lemma_seq_lookup_absent(s: Seq<Route>, p: Seq<u8>)
    requires
        forall|i: int| 0 <= i < s.len() ==> (#[trigger] s[i]).vp() != p,
    ensures
        seq_lookup(s, p) is None,
    decreases s.len(),
{
    if s.len() > 0 {
        assert(s.last() == s[s.len() - 1]);
        assert forall|i: int| 0 <= i < s.drop_last().len() implies (#[trigger] s.drop_last()[i]).vp()
            != p by {
            assert(s.drop_last()[i] == s[i]);
        }
        lemma_seq_lookup_absent(s.drop_last(), p);
    }
}

/// Removing the one entry for a virtual path leaves every other lookup as it
/// was, and leaves that path unresolved.
proof fn lemma_seq_lookup_remove(s: Seq<Route>, i: int, p: Seq<u8>)
    requires
        0 <= i < s.len(),
        forall|a: int, b: int|
            #![trigger s[a].vp(), s[b].vp()]
            0 <= a < b < s.len() ==> s[a].vp() != s[b].vp(),
    ensures
        p != s[i].vp() ==> seq_lookup(s.remove(i), p) == seq_lookup(s, p),
        seq_lookup(s.remove(i), s[i].vp()) is None,
    decreases s.len(),
{
    let t = s.remove(i);
    s.remove_ensures(i);
    assert forall|j: int| 0 <= j < t.len() implies (#[trigger] t[j]).vp() != s[i].vp() by {
        if j < i {
            assert(t[j] == s[j]);
        } else {
            assert(t[j] == s[j + 1]);
        }
    }
    lemma_seq_lookup_absent(t, s[i].vp());
    if p != s[i].vp() {
        if i == s.len() - 1 {
            assert(t =~= s.drop_last());
        } else {
            assert(t.last() == s.last());
            if s.last().vp() != p {
                assert(t.drop_last() =~= s.drop_last().remove(i));
                assert forall|a: int, b: int|
                    #![trigger s.drop_last()[a].vp(), s.drop_last()[b].vp()]
                    0 <= a < b < s.drop_last().len() implies s.drop_last()[a].vp()
                    != s.drop_last()[b].vp() by {
                    assert(s.drop_last()[a] == s[a]);
                    assert(s.drop_last()[b] == s[b]);
                }
                assert(s.drop_last()[i] == s[i]);
                lemma_seq_lookup_remove(s.drop_last(), i, p);
            }
        }
    }
}

/// The route table. Immutable once built: every connection handler resolves
/// against the same entries, and none of them writes.
#[derive(Debug)]
pub struct RouteTable {
    pub entries: Vec<Route>,
}

impl RouteTable {
    /// Well-formedness: every entry's virtual path begins with `/`, and no
    /// two entries share a virtual path.
    pub open spec fn wf(self) -> bool {
        &&& forall|i: int|
            0 <= i < self.entries@.len() ==> is_virtual_path((#[trigger] self.entries@[i]).vp())
        &&& forall|a: int, b: int|
            #![trigger self.entries@[a].vp(), self.entries@[b].vp()]
            0 <= a < b < self.entries@.len() ==> self.entries@[a].vp() != self.entries@[b].vp()
    }

    /// The local path the table resolves `p` to, if any.
    pub open spec fn spec_lookup(self, p: Seq<u8>) -> Option<Seq<u8>> {
        seq_lookup(self.entries@, p)
    }

    /// Whether the table holds an entry for `p`.
    pub open spec fn contains_path(self, p: Seq<u8>) -> bool {
        self.spec_lookup(p) is Some
    }

    /// An empty table: nothing is served until routes are inserted.
    pub fn new() -> (r: RouteTable)
        ensures
            r.wf(),
            r.entries@.len() == 0,
            forall|p: Seq<u8>| #[trigger] r.spec_lookup(p) is None,
    {
        RouteTable { entries: Vec::new() }
    }

    /// The position of the entry for `p`, if one exists.
    fn find_route(&self, p: &Vec<u8>) -> (r: Option<usize>)
        ensures
            match r {
                Some(i) => i < self.entries@.len() && self.entries@[i as int].vp() == p@,
                None => forall|i: int|
                    0 <= i < self.entries@.len() ==> (#[trigger] self.entries@[i]).vp() != p@,
            },
    {
        let mut i: usize = 0;
        while i < self.entries.len()
            invariant
                i <= self.entries@.len(),
                forall|k: int| 0 <= k < i ==> (#[trigger] self.entries@[k]).vp() != p@,
            decreases self.entries@.len() - i,
        {
            if bytes_eq(&self.entries[i].virtual_path, p) {
                return Some(i);
            }
            i += 1;
        }
        None
    }

    /// Resolves a virtual path to the local path registered for it.
    pub fn lookup<'a>(&'a self, p: &Vec<u8>) -> (r: Option<&'a Vec<u8>>)
        ensures
            match r {
                Some(l) => self.spec_lookup(p@) == Some(l@),
                None => self.spec_lookup(p@) is None,
            },
    {
        proof {
            assert(self.entries@.take(self.entries@.len() as int) =~= self.entries@);
        }
        let mut i: usize = self.entries.len();
        while i > 0
            invariant
                i <= self.entries@.len(),
                seq_lookup(self.entries@, p@) == seq_lookup(self.entries@.take(i as int), p@),
            decreases i,
        {
            i -= 1;
            proof {
                assert(self.entries@.take(i + 1).last() == self.entries@[i as int]);
                assert(self.entries@.take(i + 1).drop_last() =~= self.entries@.take(i as int));
            }
            if bytes_eq(&self.entries[i].virtual_path, p) {
                return Some(&self.entries[i].local_path);
            }
        }
        None
    }

    /// Registers `local_path` under `virtual_path`. An entry already present
    /// for the same virtual path is overwritten: the last insertion wins.
    pub fn insert_route(&mut self, virtual_path: Vec<u8>, local_path: Vec<u8>)
        requires
            old(self).wf(),
            is_virtual_path(virtual_path@),
        ensures
            final(self).wf(),
            forall|p: Seq<u8>| #[trigger]
                final(self).spec_lookup(p) == (if p == virtual_path@ {
                    Some(local_path@)
                } else {
                    old(self).spec_lookup(p)
                }),
    {
        let ghost s0 = self.entries@;
        let ghost vp = virtual_path@;
        let ghost lp = local_path@;
        let found = self.find_route(&virtual_path);
        match found {
            Some(i) => {
                self.entries.remove(i);
                proof {
                    s0.remove_ensures(i as int);
                }
            },
            None => {},
        }
        let ghost s1 = self.entries@;
        proof {
            // No entry of the intermediate list carries vp, and the list is
            // still well formed.
            assert forall|j: int| 0 <= j < s1.len() implies (#[trigger] s1[j]).vp() != vp
                && is_virtual_path(s1[j].vp()) by {
                match found {
                    Some(i) => {
                        if j < i as int {
                            assert(s1[j] == s0[j]);
                        } else {
                            assert(s1[j] == s0[j + 1]);
                        }
                    },
                    None => {},
                }
            }
            assert forall|a: int, b: int|
                #![trigger s1[a].vp(), s1[b].vp()]
                0 <= a < b < s1.len() implies s1[a].vp() != s1[b].vp() by {
                match found {
                    Some(i) => {
                        let a0: int = if a < i as int { a } else { a + 1 };
                        let b0: int = if b < i as int { b } else { b + 1 };
                        assert(s1[a] == s0[a0]);
                        assert(s1[b] == s0[b0]);
                    },
                    None => {},
                }
            }
        }
        self.entries.push(Route { virtual_path, local_path });
        proof {
            let s2 = self.entries@;
            assert(s2.last().vp() == vp);
            assert(s2.drop_last() =~= s1);
            assert forall|p: Seq<u8>| #[trigger] seq_lookup(s2, p) == (if p == vp {
                Some(lp)
            } else {
                seq_lookup(s0, p)
            }) by {
                if p == vp {
                } else {
                    assert(seq_lookup(s2, p) == seq_lookup(s1, p));
                    match found {
                        Some(i) => {
                            lemma_seq_lookup_remove(s0, i as int, p);
                        },
                        None => {},
                    }
                }
            }
        }
    }
}

/// The views of a token list, each token as a byte string.
pub open spec fn token_views(tokens: Seq<Vec<u8>>) -> Seq<Seq<u8>> {
    Seq::new(tokens.len(), |i: int| tokens[i]@)
}

/// The local path the configuration tokens assign to `p`: tokens pair up as
/// (local fragment, virtual path), and the last pair for `p` decides.
pub open spec fn spec_route_of(tokens: Seq<Seq<u8>>, cwd: Seq<u8>, p: Seq<u8>) -> Option<Seq<u8>>
    decreases tokens.len(),
{
    if tokens.len() < 2 {
        None
    } else if tokens[tokens.len() - 1] == p {
        Some(spec_join(cwd, tokens[tokens.len() - 2]))
    } else {
        spec_route_of(tokens.take(tokens.len() - 2), cwd, p)
    }
}

/// Some virtual-path token (every token at an odd position) lacks its
/// leading slash.
pub open spec fn has_bad_virtual_path(tokens: Seq<Seq<u8>>) -> bool {
    exists|i: int| 0 <= i < tokens.len() && i % 2 == 1 && !is_virtual_path(#[trigger] tokens[i])
}

/// Builds the route table from the configuration tokens, resolving local
/// fragments against `cwd`. Fails when a virtual path lacks its leading
/// slash, or — failing that — when the tokens do not pair up; in either case
/// no table exists and nothing is ever served.
pub fn build_route_table(tokens: &Vec<Vec<u8>>, cwd: &Vec<u8>) -> (r: Result<
    RouteTable,
    ConfigError,
>)
    ensures
        match r {
            Ok(t) => {
                &&& t.wf()
                &&& tokens@.len() % 2 == 0
                &&& !has_bad_virtual_path(token_views(tokens@))
                &&& forall|p: Seq<u8>| #[trigger]
                    t.spec_lookup(p) == spec_route_of(token_views(tokens@), cwd@, p)
            },
            Err(ConfigError::MissingLeadingSlash) => has_bad_virtual_path(token_views(tokens@)),
            Err(ConfigError::OddTokenCount) => tokens@.len() % 2 == 1 && !has_bad_virtual_path(
                token_views(tokens@),
            ),
        },
{
    let ghost tv = token_views(tokens@);
    let n: usize = tokens.len();
    let mut table = RouteTable::new();
    let mut k: usize = 0;
    while k < n / 2
        invariant
            n == tokens@.len(),
            tv == token_views(tokens@),
            k <= n / 2,
            table.wf(),
            forall|p: Seq<u8>| #[trigger]
                table.spec_lookup(p) == spec_route_of(tv.take(2 * k as int), cwd@, p),
            forall|i: int| 0 <= i < 2 * k && i % 2 == 1 ==> is_virtual_path(#[trigger] tv[i]),
        decreases n / 2 - k,
    {
        let local = &tokens[2 * k];
        let virt = &tokens[2 * k + 1];
        if !(virt.len() > 0 && virt[0] == SLASH) {
            proof {
                assert(tv[2 * k + 1] == virt@);
                assert(!is_virtual_path(tv[2 * k + 1]));
            }
            return Err(ConfigError::MissingLeadingSlash);
        }
        let resolved = join_path(cwd, local);
        let vp = clone_bytes(virt);
        table.insert_route(vp, resolved);
        proof {
            let t2 = tv.take(2 * (k + 1));
            assert(t2.len() == 2 * k + 2);
            assert(t2[t2.len() - 1] == tv[2 * k + 1]);
            assert(t2[t2.len() - 2] == tv[2 * k]);
            assert(t2.take(t2.len() - 2) =~= tv.take(2 * k as int));
            assert forall|p: Seq<u8>| #[trigger] table.spec_lookup(p) == spec_route_of(
                t2,
                cwd@,
                p,
            ) by {
                if p == tv[2 * k + 1] {
                    assert(spec_route_of(t2, cwd@, p) == Some(spec_join(cwd@, tv[2 * k])));
                } else {
                    assert(spec_route_of(t2, cwd@, p) == spec_route_of(
                        tv.take(2 * k as int),
                        cwd@,
                        p,
                    ));
                }
            }
        }
        k += 1;
    }
    if n % 2 == 1 {
        return Err(ConfigError::OddTokenCount);
    }
    proof {
        assert(tv.take(2 * (n / 2) as int) =~= tv);
    }
    Ok(table)
}

/// Of all the configuration pairs that register a virtual path, the last
/// decides: when pair `k` registers `p` and no later pair does, the tokens
/// assign `p` exactly pair `k`'s resolved local fragment.
pub proof fn lemma_last_pair_wins(tokens: Seq<Seq<u8>>, cwd: Seq<u8>, k: int, p: Seq<u8>)
    requires
        tokens.len() % 2 == 0,
        0 <= k,
        2 * k + 1 < tokens.len(),
        tokens[2 * k + 1] == p,
        forall|i: int| 2 * k + 1 < i < tokens.len() && i % 2 == 1 ==> (#[trigger] tokens[i]) != p,
    ensures
        spec_route_of(tokens, cwd, p) == Some(spec_join(cwd, tokens[2 * k])),
    decreases tokens.len(),
{
    let n = tokens.len() as int;
    if 2 * k + 1 < n - 1 {
        assert((n - 1) % 2 == 1);
        assert(tokens[n - 1] != p);
        let m = tokens.take(n - 2);
        assert(m[2 * k + 1] == tokens[2 * k + 1]);
        assert(m[2 * k] == tokens[2 * k]);
        assert forall|i: int| 2 * k + 1 < i < m.len() && i % 2 == 1 implies (#[trigger] m[i])
            != p by {
            assert(m[i] == tokens[i]);
        }
        lemma_last_pair_wins(m, cwd, k, p);
    }
}

/// A virtual path that no configuration pair registers resolves to nothing.
pub proof fn lemma_unregistered_token_unresolved(tokens: Seq<Seq<u8>>, cwd: Seq<u8>, p: Seq<u8>)
    requires
        tokens.len() % 2 == 0,
        forall|i: int| 0 <= i < tokens.len() && i % 2 == 1 ==> (#[trigger] tokens[i]) != p,
    ensures
        spec_route_of(tokens, cwd, p) is None,
    decreases tokens.len(),
{
    let n = tokens.len() as int;
    if n >= 2 {
        assert((n - 1) % 2 == 1);
        assert(tokens[n - 1] != p);
        let m = tokens.take(n - 2);
        assert forall|i: int| 0 <= i < m.len() && i % 2 == 1 implies (#[trigger] m[i]) != p by {
            assert(m[i] == tokens[i]);
        }
        lemma_unregistered_token_unresolved(m, cwd, p);
    }
}

/// The single shape every finished route table has: exactly one entry per
/// virtual path, and every virtual path begins with `/`.
pub proof fn lemma_one_entry_per_path(t: RouteTable)
    requires
        t.wf(),
    ensures
        forall|a: int, b: int|
            #![trigger t.entries@[a].vp(), t.entries@[b].vp()]
            0 <= a < t.entries@.len() && 0 <= b < t.entries@.len() && t.entries@[a].vp()
                == t.entries@[b].vp() ==> a == b,
        forall|i: int|
            0 <= i < t.entries@.len() ==> is_virtual_path((#[trigger] t.entries@[i]).vp()),
{
    assert forall|a: int, b: int|
        #![trigger t.entries@[a].vp(), t.entries@[b].vp()]
        0 <= a < t.entries@.len() && 0 <= b < t.entries@.len() && t.entries@[a].vp()
            == t.entries@[b].vp() implies a == b by {
        if a < b {
            assert(t.entries@[a].vp() != t.entries@[b].vp());
        } else if b < a {
            assert(t.entries@[b].vp() != t.entries@[a].vp());
        }
    }
}

} // verus!
