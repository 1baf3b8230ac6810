use crate::account::{accounts_wf, AccountService};
use crate::ipc::{registry_wf, IpcService};
use crate::util::{current_timestamp, stored_timestamp};
use vstd::prelude::*;

verus! {

/// The two stores that the control plane works on.
pub struct Service {
    pub ipc_service: IpcService,
    pub account_service: AccountService,
}

impl Service {
    /// Empty stores, with the administrator account seeded.
    pub fn new() -> (r: Self)
        ensures
            registry_wf(r.ipc_service@),
            r.ipc_service@.rows.len() == 0,
            accounts_wf(r.account_service@),
            r.account_service@.rows.len() == 1,
            r.account_service@.rows[0].username == "admin"@,
    {
        let ipc_service = IpcService::new();
        let mut account_service = AccountService::new();
        let now = stored_timestamp(current_timestamp());
        account_service.init_data(now);
        Service { ipc_service, account_service }
    }
}

} // verus!
