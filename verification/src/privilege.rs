//! Access-privilege flags as the server reports them in a
//! `current-user-privilege-set` property. Each privilege element carries
//! one marker tag; the heterogeneous list is folded into five independent
//! boolean capability flags, unrecognized markers dropping out silently.
//! Absent privilege information yields all-false flags, which means "not
//! reported", not "denied".
use vstd::prelude::*;

verus! {

/// One recognised privilege marker, or `Unrecognized` for a marker the
/// vocabulary does not know.
#[derive(Debug, Clone, Copy, PartialEq, Eq, Structural)]
pub enum PrivilegeType {
    Read,
    Write,
    ReadAcl,
    WriteAcl,
    All,
    Unrecognized,
}

/// The list of privilege entries of one `current-user-privilege-set`
/// property.
#[derive(Debug, Clone)]
pub struct CurrentUserPrivilegeSet {
    pub privileges: Vec<PrivilegeType>,
}

/// The mathematical shape of a privilege set: its entry list.
#[verifier::ext_equal]
pub struct CurrentUserPrivilegeSetView {
    pub privileges: Seq<PrivilegeType>,
}

impl View for CurrentUserPrivilegeSet {
    type V = CurrentUserPrivilegeSetView;

    open spec fn view(&self) -> CurrentUserPrivilegeSetView {
        CurrentUserPrivilegeSetView { privileges: self.privileges@ }
    }
}

/// The flags a privilege entry list folds into.
pub open spec fn flags_of(privileges: Seq<PrivilegeType>) -> PrivilegeView {
    PrivilegeView {
        read: privileges.contains(PrivilegeType::Read),
        write: privileges.contains(PrivilegeType::Write),
        read_acl: privileges.contains(PrivilegeType::ReadAcl),
        write_acl: privileges.contains(PrivilegeType::WriteAcl),
        all: privileges.contains(PrivilegeType::All),
    }
}

impl CurrentUserPrivilegeSet {
    /// Folds the entry list into the five capability flags.
    pub fn privilege(self) -> (r: Privilege)
        ensures
            r@ == flags_of(self@.privileges),
    {
        Privilege::from(self.privileges)
    }

    /// The same fold, without consuming the set.
    pub fn privilege_flags(&self) -> (r: Privilege)
        ensures
            r@ == flags_of(self@.privileges),
    {
        let n = self.privileges.len();
        let mut copy: Vec<PrivilegeType> = Vec::new();
        let mut i: usize = 0;
        while i < n
            invariant
                i <= n,
                n == self.privileges@.len(),
                copy@ == self.privileges@.subrange(0, i as int),
            decreases n - i,
        {
            copy.push(self.privileges[i]);
            proof {
                assert(copy@ =~= self.privileges@.subrange(0, i as int + 1));
            }
            i += 1;
        }
        proof {
            assert(self.privileges@.subrange(0, n as int) =~= self.privileges@);
        }
        Privilege::from(copy)
    }
}

/// Five independent capability flags for the current credentials.
#[derive(Debug, Clone)]
pub struct Privilege {
    pub(crate) read: bool,
    pub(crate) write: bool,
    pub(crate) read_acl: bool,
    pub(crate) write_acl: bool,
    pub(crate) all: bool,
}

/// The mathematical shape of the five flags.
#[verifier::ext_equal]
pub struct PrivilegeView {
    pub read: bool,
    pub write: bool,
    pub read_acl: bool,
    pub write_acl: bool,
    pub all: bool,
}

impl View for Privilege {
    type V = PrivilegeView;

    closed spec fn view(&self) -> PrivilegeView {
        PrivilegeView {
            read: self.read,
            write: self.write,
            read_acl: self.read_acl,
            write_acl: self.write_acl,
            all: self.all,
        }
    }
}

impl Privilege {
    pub open spec fn read_spec(self) -> bool {
        self@.read
    }

    pub open spec fn write_spec(self) -> bool {
        self@.write
    }

    pub open spec fn read_acl_spec(self) -> bool {
        self@.read_acl
    }

    pub open spec fn write_acl_spec(self) -> bool {
        self@.write_acl
    }

    pub open spec fn all_spec(self) -> bool {
        self@.all
    }

    /// Flags with nothing granted: what an absent privilege set yields.
    pub fn none() -> (r: Privilege)
        ensures
            !r.read_spec(),
            !r.write_spec(),
            !r.read_acl_spec(),
            !r.write_acl_spec(),
            !r.all_spec(),
    {
        Privilege { read: false, write: false, read_acl: false, write_acl: false, all: false }
    }

    pub fn read(&self) -> (r: bool)
        ensures
            r == self.read_spec(),
    {
        self.read
    }

    pub fn write(&self) -> (r: bool)
        ensures
            r == self.write_spec(),
    {
        self.write
    }

    pub fn read_acl(&self) -> (r: bool)
        ensures
            r == self.read_acl_spec(),
    {
        self.read_acl
    }

    pub fn write_acl(&self) -> (r: bool)
        ensures
            r == self.write_acl_spec(),
    {
        self.write_acl
    }

    pub fn all(&self) -> (r: bool)
        ensures
            r == self.all_spec(),
    {
        self.all
    }
}

impl From<Vec<PrivilegeType>> for Privilege {
    /// Each flag is set exactly when its marker occurs somewhere in the
    /// list; unrecognized entries contribute nothing.
    fn from(value: Vec<PrivilegeType>) -> (r: Privilege) {
        let n = value.len();
        let mut read = false;
        let mut write = false;
        let mut read_acl = false;
        let mut write_acl = false;
        let mut all = false;
        let mut i: usize = 0;
        while i < n
            invariant
                i <= n,
                n == value@.len(),
                read == value@.subrange(0, i as int).contains(PrivilegeType::Read),
                write == value@.subrange(0, i as int).contains(PrivilegeType::Write),
                read_acl == value@.subrange(0, i as int).contains(PrivilegeType::ReadAcl),
                write_acl == value@.subrange(0, i as int).contains(PrivilegeType::WriteAcl),
                all == value@.subrange(0, i as int).contains(PrivilegeType::All),
            decreases n - i,
        {
            proof {
                let pfx = value@.subrange(0, i as int);
                let nxt = value@.subrange(0, i as int + 1);
                assert(nxt =~= pfx.push(value@[i as int]));
                assert forall|t: PrivilegeType| nxt.contains(t) <==> (pfx.contains(t) || value@[i as int]
                    == t) by {
                    assert(nxt[i as int] == value@[i as int]);
                    if pfx.contains(t) {
                        let k = choose|k: int| 0 <= k < pfx.len() && pfx[k] == t;
                        assert(nxt[k] == t);
                    }
                    if nxt.contains(t) {
                        let k = choose|k: int| 0 <= k < nxt.len() && nxt[k] == t;
                        if k < pfx.len() {
                            assert(pfx[k] == t);
                        }
                    }
                }
            }
            match value[i] {
                PrivilegeType::Read => {
                    read = true;
                },
                PrivilegeType::Write => {
                    write = true;
                },
                PrivilegeType::ReadAcl => {
                    read_acl = true;
                },
                PrivilegeType::WriteAcl => {
                    write_acl = true;
                },
                PrivilegeType::All => {
                    all = true;
                },
                PrivilegeType::Unrecognized => {},
            }
            i += 1;
        }
        proof {
            assert(value@.subrange(0, n as int) =~= value@);
        }
        Privilege { read, write, read_acl, write_acl, all }
    }
}

impl vstd::std_specs::convert::FromSpecImpl<Vec<PrivilegeType>> for Privilege {
    open spec fn obeys_from_spec() -> bool {
        true
    }

    closed spec fn from_spec(v: Vec<PrivilegeType>) -> Privilege {
        Privilege {
            read: v@.contains(PrivilegeType::Read),
            write: v@.contains(PrivilegeType::Write),
            read_acl: v@.contains(PrivilegeType::ReadAcl),
            write_acl: v@.contains(PrivilegeType::WriteAcl),
            all: v@.contains(PrivilegeType::All),
        }
    }
}

/// What `Privilege::from` yields, seen through the view: the flag fold.
pub broadcast proof fn lemma_from_spec_view(v: Vec<PrivilegeType>)
    ensures
        (#[trigger] <Privilege as vstd::std_specs::convert::FromSpec<
            Vec<PrivilegeType>,
        >>::from_spec(v))@ == flags_of(v@),
{
}

} // verus!
