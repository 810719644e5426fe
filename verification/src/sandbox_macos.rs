//! The macOS sandbox variant: a textual confinement profile rendered
//! from a template, handed to the system's `sandbox-exec` wrapper.
//!
//! Reading the template file and the final exec are the launcher's
//! work; this module renders the profile text and fixes the argument
//! vector the wrapper receives.

use vstd::prelude::*;
use vstd::string::*;

use crate::text::{replace_all, replace_all_spec};

verus! {

/// The macOS sandbox variant.
pub struct MacOsSandbox {}

impl MacOsSandbox {
    /// Renders a confinement profile: every `{secrets_dir}` parameter
    /// of the template is replaced by the denied directory's path.
    pub fn render_profile(&self, template: &str, secrets_dir: &str) -> (r: String)
        ensures
            r@ == replace_all_spec(template@, "{secrets_dir}"@, secrets_dir@),
    {
        replace_all(template, "{secrets_dir}", secrets_dir)
    }

    /// The argument vector of the sandboxed exec on macOS: the
    /// `sandbox-exec` wrapper, the rendered profile, the command and
    /// its arguments.
    pub fn exec_argv(&self, profile: &str, cmd: &str, args: &[String]) -> (r: Vec<String>)
        ensures
            r@.len() == 4 + args@.len(),
            r@[0]@ == "sandbox-exec"@,
            r@[1]@ == "-p"@,
            r@[2]@ == profile@,
            r@[3]@ == cmd@,
            forall|k: int| 0 <= k < args@.len() ==> (#[trigger] r@[k + 4])@ == args@[k]@,
    {
        let mut r: Vec<String> = Vec::new();
        r.push("sandbox-exec".to_owned());
        r.push("-p".to_owned());
        r.push(profile.to_owned());
        r.push(cmd.to_owned());
        let n = args.len();
        let mut i: usize = 0;
        while i < n
            invariant
                n == args@.len(),
                0 <= i <= n,
                r@.len() == 4 + i,
                r@[0]@ == "sandbox-exec"@,
                r@[1]@ == "-p"@,
                r@[2]@ == profile@,
                r@[3]@ == cmd@,
                forall|k: int| 0 <= k < i ==> (#[trigger] r@[k + 4])@ == args@[k]@,
            decreases n - i,
        {
            r.push(args[i].clone());
            i = i + 1;
        }
        r
    }
}

} // verus!
