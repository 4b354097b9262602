//! Tuning for competitive play.

use crate::tunnel::{joined, powershell_args, powershell_words, word_texts};
use vstd::prelude::*;

verus! {

/// Manages Windows OS and network tuning for competitive gaming performance.
pub struct WindowsGamingTuner;

/// The script that has the packets of a program forwarded with preference, unless a policy
/// says so already.
pub open spec fn qos_script(app_name: Seq<char>) -> Seq<char> {
    "if (-not (Get-NetQosPolicy -Name 'ElysiumGamingQoS' -ErrorAction SilentlyContinue)) { New-NetQosPolicy -Name 'ElysiumGamingQoS' -AppPathNameMatchCondition '"@
        + app_name
        + "' -IPProtocolMatchCondition UDP -DSCPAction 46 -NetworkProfile All -Confirm:$false | Out-Null }"@
}

impl WindowsGamingTuner {
    /// Configures Windows NetQoS policy for DSCP Expedited Forwarding (EF = 46): what
    /// PowerShell is to run.
    pub fn dscp_qos_policy(app_name: &str) -> (r: Vec<String>)
        ensures
            word_texts(r@) == powershell_words(qos_script(app_name@)),
    {
        let script: String = joined(
            "if (-not (Get-NetQosPolicy -Name 'ElysiumGamingQoS' -ErrorAction SilentlyContinue)) { New-NetQosPolicy -Name 'ElysiumGamingQoS' -AppPathNameMatchCondition '",
            app_name,
            "' -IPProtocolMatchCondition UDP -DSCPAction 46 -NetworkProfile All -Confirm:$false | Out-Null }",
        );
        powershell_args(script.as_str())
    }

    /// Where there is no Windows, a worker thread is left as it is.
    pub fn tune_worker_thread(_thread_name: &str) {
    }
}

} // verus!
