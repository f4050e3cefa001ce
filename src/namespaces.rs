use vstd::prelude::*;

verus! {

/// The kinds of Linux namespace a container may ask for.
#[derive(Clone, Copy, Debug, PartialEq, Eq, Structural)]
pub enum LinuxNamespaceType {
    Mount,
    Cgroup,
    Uts,
    Ipc,
    User,
    Pid,
    Network,
    Time,
}

/// One requested namespace: its kind, and the path of an existing namespace
/// to join, or none to create a new one.
#[derive(Debug)]
pub struct LinuxNamespace {
    pub typ: LinuxNamespaceType,
    pub path: Option<String>,
}

/// The position of the entry that stands for kind `t` among `s[..n]`: the
/// last one of that kind, as in a map built from the list in order.
pub open spec fn last_index_of(s: Seq<LinuxNamespace>, t: LinuxNamespaceType, n: int) -> Option<int>
    decreases n,
{
    if n <= 0 {
        None
    } else if s[n - 1].typ == t {
        Some(n - 1)
    } else {
        last_index_of(s, t, n - 1)
    }
}

/// The namespaces that a specification requests, in specification order.
pub struct Namespaces {
    pub entries: Vec<LinuxNamespace>,
}

impl Namespaces {
    /// The set of the namespaces in `list`; no list means none.
    pub fn new(list: Option<Vec<LinuxNamespace>>) -> (r: Namespaces)
        ensures
            r.entries@ == (match list {
                Some(v) => v@,
                None => Seq::empty(),
            }),
    {
        match list {
            Some(v) => Namespaces { entries: v },
            None => Namespaces { entries: Vec::new() },
        }
    }

    /// The requested namespace of kind `t`, if any. Where the list names a
    /// kind more than once, the last entry stands.
    pub fn get(&self, t: LinuxNamespaceType) -> (r: Option<&LinuxNamespace>)
        ensures
            match last_index_of(self.entries@, t, self.entries@.len() as int) {
                Some(i) => r == Some(&self.entries@[i]),
                None => r.is_none(),
            },
    {
        let mut i: usize = self.entries.len();
        while i > 0
            invariant
                i <= self.entries@.len(),
                last_index_of(self.entries@, t, self.entries@.len() as int)
                    == last_index_of(self.entries@, t, i as int),
            decreases i,
        {
            if self.entries[i - 1].typ == t {
                return Some(&self.entries[i - 1]);
            }
            i = i - 1;
        }
        None
    }
}

/// A kind is requested exactly when some entry of the list names it, and the
/// entry that stands for it is of that kind.
pub proof fn lemma_get_finds_kind(s: Seq<LinuxNamespace>, t: LinuxNamespaceType, n: int)
    requires
        0 <= n <= s.len(),
    ensures
        last_index_of(s, t, n).is_some() <==> exists|j: int| 0 <= j < n && #[trigger] s[j].typ == t,
        last_index_of(s, t, n).is_some() ==> {
            let i = last_index_of(s, t, n).unwrap();
            0 <= i < n && s[i].typ == t && forall|j: int| i < j < n ==> #[trigger] s[j].typ != t
        },
    decreases n,
{
    if n > 0 {
        lemma_get_finds_kind(s, t, n - 1);
    }
}

} // verus!
