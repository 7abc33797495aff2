use vstd::prelude::*;

verus! {

/// State of the SSH tunnel that the desktop app may hold open to a remote agent.
pub struct SshTunnelStatus {
    pub active: bool,
    pub local_port: Option<u32>,
    pub error: Option<String>,
}

/// Reports the tunnel status; no tunnel is ever held open by this library.
pub fn ssh_tunnel_status() -> (status: SshTunnelStatus)
    ensures
        !status.active,
        status.local_port is None,
        status.error is None,
{
    SshTunnelStatus { active: false, local_port: None, error: None }
}

} // verus!
