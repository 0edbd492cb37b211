//! Per-node metadata: role, replication id and counters, rendered as the
//! plaintext block returned by `INFO`.

use vstd::prelude::*;
use vstd::string::StringExecFns;
use crate::storage::Config;
use crate::text::{dec_chars, u64_to_string, str_eq};

verus! {

/// The node's metadata record.
#[derive(Debug)]
pub struct Info {
    pub replication: Replication,
}

/// The replication block: role, id, replica count and offset.
#[derive(Debug)]
pub struct Replication {
    pub connected_slaves: u32,
    pub role: String,
    pub master_replid: String,
    pub master_repl_offset: u32,
}

/// Relies on `uuid::Uuid::now_v7` and its `Display` impl: the hyphenated
/// rendering of a UUID is always 36 characters.  The id itself depends on
/// the clock and on random bits, so nothing more is claimed of it.
#[verifier::external_body]
fn new_replication_id() -> (r: String)
    ensures
        r@.len() == 36,
{
    uuid::Uuid::now_v7().to_string()
}

/// The role string a configuration determines: `slave` when a master
/// address is configured, `master` otherwise.
pub open spec fn spec_role(replicaof_set: bool) -> Seq<char> {
    if replicaof_set {
        "slave"@
    } else {
        "master"@
    }
}

/// The exact text of the replication block.
pub open spec fn spec_replication_block(
    role: Seq<char>,
    replid: Seq<char>,
    slaves: u32,
    offset: u32,
) -> Seq<char> {
    "# Replication\n"@ + "role:"@ + role + "\n"@ + "master_replid:"@ + replid + "\n"@
        + "connected_slaves:"@ + dec_chars(slaves as nat) + "\n"@ + "master_repl_offset:"@
        + dec_chars(offset as nat) + "\n"@
}

impl Info {
    /// Build the startup metadata for `config`: a fresh replication id,
    /// zero offset, zero replicas, and the role `replicaof` decides.
    pub fn from(config: &Config) -> (r: Info)
        ensures
            r.replication.role@ == spec_role(config.replicaof is Some),
            r.replication.master_replid@.len() == 36,
            r.replication.master_repl_offset == 0,
            r.replication.connected_slaves == 0,
    {
        let role = if config.replicaof.is_some() {
            "slave".to_owned()
        } else {
            "master".to_owned()
        };
        Info {
            replication: Replication {
                master_replid: new_replication_id(),
                master_repl_offset: 0,
                connected_slaves: 0,
                role,
            },
        }
    }

    /// The node is a master exactly when its role reads `master`.
    pub fn is_master(&self) -> (r: bool)
        ensures
            r == (self.replication.role@ == "master"@),
    {
        str_eq(self.replication.role.as_str(), "master")
    }

    /// A copy of the record.
    pub fn clone_info(&self) -> (r: Info)
        ensures
            r == *self,
    {
        Info {
            replication: Replication {
                connected_slaves: self.replication.connected_slaves,
                role: self.replication.role.clone(),
                master_replid: self.replication.master_replid.clone(),
                master_repl_offset: self.replication.master_repl_offset,
            },
        }
    }
}

impl Replication {
    /// Render the block, line by line, each line ending in `\n`.
    pub fn render(&self) -> (r: String)
        ensures
            r@ == spec_replication_block(
                self.role@,
                self.master_replid@,
                self.connected_slaves,
                self.master_repl_offset,
            ),
    {
        let mut out = String::new();
        out.append("# Replication\n");
        out.append("role:");
        out.append(self.role.as_str());
        out.append("\n");
        out.append("master_replid:");
        out.append(self.master_replid.as_str());
        out.append("\n");
        out.append("connected_slaves:");
        let slaves = u64_to_string(self.connected_slaves as u64);
        out.append(slaves.as_str());
        out.append("\n");
        out.append("master_repl_offset:");
        let offset = u64_to_string(self.master_repl_offset as u64);
        out.append(offset.as_str());
        out.append("\n");
        assert(out@ =~= spec_replication_block(
            self.role@,
            self.master_replid@,
            self.connected_slaves,
            self.master_repl_offset,
        ));
        out
    }
}

} // verus!
