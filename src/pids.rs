use vstd::prelude::*;

verus! {

/// The character of a decimal digit `d < 10`.
pub open spec fn digit_char(d: nat) -> char {
    if d == 0 {
        '0'
    } else if d == 1 {
        '1'
    } else if d == 2 {
        '2'
    } else if d == 3 {
        '3'
    } else if d == 4 {
        '4'
    } else if d == 5 {
        '5'
    } else if d == 6 {
        '6'
    } else if d == 7 {
        '7'
    } else if d == 8 {
        '8'
    } else {
        '9'
    }
}

/// The decimal text of `n`, most significant digit first, without leading zeros.
pub open spec fn decimal_text(n: nat) -> Seq<char>
    decreases n,
{
    if n < 10 {
        seq![digit_char(n)]
    } else {
        decimal_text(n / 10).push(digit_char(n % 10))
    }
}

/// The decimal text of a signed integer: a leading `-` for a negative one.
pub open spec fn signed_text(n: int) -> Seq<char> {
    if n < 0 {
        seq!['-'].add(decimal_text((-n) as nat))
    } else {
        decimal_text(n as nat)
    }
}

/// The literal that a cgroup file holds for "no limit".
pub open spec fn unlimited_text() -> Seq<char> {
    seq!['m', 'a', 'x']
}

/// What `pids.max` holds for a requested limit: the limit itself when it is
/// positive, and `max` (no limit) otherwise.
pub open spec fn pids_max_text(limit: int) -> Seq<char> {
    if limit > 0 {
        decimal_text(limit as nat)
    } else {
        unlimited_text()
    }
}

fn digit_str(d: u64) -> (r: &'static str)
    requires
        d < 10,
    ensures
        r@ == seq![digit_char(d as nat)],
{
    if d == 0 {
        proof { reveal_strlit("0"); }
        "0"
    } else if d == 1 {
        proof { reveal_strlit("1"); }
        "1"
    } else if d == 2 {
        proof { reveal_strlit("2"); }
        "2"
    } else if d == 3 {
        proof { reveal_strlit("3"); }
        "3"
    } else if d == 4 {
        proof { reveal_strlit("4"); }
        "4"
    } else if d == 5 {
        proof { reveal_strlit("5"); }
        "5"
    } else if d == 6 {
        proof { reveal_strlit("6"); }
        "6"
    } else if d == 7 {
        proof { reveal_strlit("7"); }
        "7"
    } else if d == 8 {
        proof { reveal_strlit("8"); }
        "8"
    } else {
        proof { reveal_strlit("9"); }
        "9"
    }
}

/// Writes `n` in decimal.
pub fn decimal(n: u64) -> (r: String)
    ensures
        r@ == decimal_text(n as nat),
    decreases n,
{
    if n < 10 {
        String::from_str(digit_str(n))
    } else {
        let mut s = decimal(n / 10);
        s.append(digit_str(n % 10));
        s
    }
}

/// Writes `n` in decimal, with a leading `-` when it is negative.
pub fn signed_decimal(n: i64) -> (r: String)
    ensures
        r@ == signed_text(n as int),
{
    if n < 0 {
        let magnitude: u64 = (0i128 - n as i128) as u64;
        proof { reveal_strlit("-"); }
        let mut s = String::from_str("-");
        s.append(decimal(magnitude).as_str());
        s
    } else {
        decimal(n as u64)
    }
}

/// The pid-count limit of a container's resources; zero or less means
/// no limit.
#[derive(Clone, Copy, Debug, PartialEq, Eq, Structural)]
pub struct LinuxPids {
    pub limit: i64,
}

/// The resource limits of a container that its cgroup controllers read.
#[derive(Clone, Copy, Debug, PartialEq, Eq, Structural)]
pub struct LinuxResources {
    pub pids: Option<LinuxPids>,
}

/// A file of a cgroup directory that a controller writes.
#[derive(Clone, Copy, Debug, PartialEq, Eq, Structural)]
pub enum CgroupFile {
    /// `pids.max`: the pid-count limit.
    PidsMax,
    /// `cgroup.procs`: the membership of the group.
    Procs,
}

/// One write into a file of the cgroup directory.
#[derive(Debug)]
pub struct CgroupWrite {
    pub file: CgroupFile,
    pub content: String,
}

impl CgroupWrite {
    pub open spec fn view_pair(&self) -> (CgroupFile, Seq<char>) {
        (self.file, self.content@)
    }
}

/// The writes that attach `pid` to a pids cgroup and set its limit, in order:
/// the limit first, when one is requested, then the membership.
pub open spec fn pids_writes(resources: LinuxResources, pid: int) -> Seq<(CgroupFile, Seq<char>)> {
    match resources.pids {
        Some(p) => seq![
            (CgroupFile::PidsMax, pids_max_text(p.limit as int)),
            (CgroupFile::Procs, signed_text(pid)),
        ],
        None => seq![(CgroupFile::Procs, signed_text(pid))],
    }
}

/// The PID-limit controller of a v1 cgroup hierarchy.
pub struct Pids {}

impl Pids {
    /// What the controller writes to `pids.max` for the requested limit.
    pub fn limit_text(pids: &LinuxPids) -> (r: String)
        ensures
            r@ == pids_max_text(pids.limit as int),
    {
        if pids.limit > 0 {
            decimal(pids.limit as u64)
        } else {
            proof { reveal_strlit("max"); }
            String::from_str("max")
        }
    }

    /// The writes, in order, that apply `resources` to the cgroup and attach
    /// `pid` to it. The directory itself is created before them.
    pub fn apply(resources: &LinuxResources, pid: i32) -> (r: Vec<CgroupWrite>)
        ensures
            r@.map_values(|w: CgroupWrite| w.view_pair()) == pids_writes(*resources, pid as int),
    {
        let mut r: Vec<CgroupWrite> = Vec::new();
        match resources.pids {
            Some(p) => {
                r.push(CgroupWrite { file: CgroupFile::PidsMax, content: Self::limit_text(&p) });
            },
            None => {},
        }
        r.push(CgroupWrite { file: CgroupFile::Procs, content: signed_decimal(pid as i64) });
        assert(r@.map_values(|w: CgroupWrite| w.view_pair()) =~= pids_writes(*resources, pid as int));
        r
    }
}

proof fn lemma_decimal_text_shape(n: nat)
    ensures
        decimal_text(n).len() >= 1,
        decimal_text(n)[0] != '-',
        n >= 10 ==> decimal_text(n).len() >= 2,
    decreases n,
{
    if n >= 10 {
        lemma_decimal_text_shape(n / 10);
    }
}

/// Whatever the limit, `pids.max` receives its decimal text when it is
/// positive and exactly `max` when it is zero or negative; it never receives
/// a negative numeral nor `0`.
pub proof fn lemma_pids_max_text(limit: i64)
    ensures
        limit > 0 ==> pids_max_text(limit as int) == decimal_text(limit as nat),
        limit <= 0 ==> pids_max_text(limit as int) == unlimited_text(),
        pids_max_text(limit as int)[0] != '-',
        pids_max_text(limit as int) != seq!['0'],
{
    if limit > 0 {
        lemma_decimal_text_shape(limit as nat);
        if limit < 10 {
            assert(decimal_text(limit as nat)[0] != '0');
        }
    }
}

} // verus!
