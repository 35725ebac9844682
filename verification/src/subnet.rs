//! The hosts of a local network to look for: every address from `.0` to
//! `.254` under a prefix such as `192.168.0.`.
use vstd::prelude::*;
use crate::text::{decimal, decimal_text, texts};

verus! {

/// The address of host `i` under `prefix`.
pub open spec fn host_text(prefix: Seq<char>, i: nat) -> Seq<char> {
    prefix + decimal_text(i)
}

/// The addresses of hosts `0` to `254` under `prefix`, in order.
pub fn host_addresses(prefix: &str) -> (hosts: Vec<String>)
    ensures
        hosts@.len() == 255,
        forall|i: int| 0 <= i < 255 ==> #[trigger] texts(hosts@)[i] == host_text(prefix@, i as nat),
{
    let mut hosts: Vec<String> = Vec::new();
    let mut i: u64 = 0;
    while i <= 254
        invariant
            i <= 255,
            hosts@.len() == i,
            forall|k: int| 0 <= k < i ==> #[trigger] texts(hosts@)[k] == host_text(prefix@, k as nat),
        decreases 255 - i,
    {
        let mut host = prefix.to_owned();
        let n = decimal(i);
        host.append(n.as_str());
        let ghost before = texts(hosts@);
        hosts.push(host);
        assert(texts(hosts@) =~= before.push(host_text(prefix@, i as nat)));
        i += 1;
    }
    hosts
}

} // verus!
