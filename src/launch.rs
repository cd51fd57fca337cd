use vstd::prelude::*;
use vstd::utf8::encode_utf8;

verus! {

/// Why the backend could not be started.
#[derive(Clone, Copy, Debug, PartialEq, Eq, Structural)]
pub enum SpawnError {
    /// The program is empty, or the program, an argument or the working directory holds a
    /// zero byte, which no process can be handed.
    InvalidInput,
    /// The executable was not found.
    NotFound,
    PermissionDenied,
    /// The system refused with this error number.
    Os(i32),
    Other,
}

/// Whether text can be handed to the system as a process argument: no zero byte in its
/// UTF-8 encoding.
pub open spec fn nul_free(s: Seq<char>) -> bool {
    forall|i: int| 0 <= i < encode_utf8(s).len() ==> encode_utf8(s)[i] != 0
}

/// Whether a launch configuration can be handed to the system.
pub open spec fn launchable(program: Seq<char>, args: Seq<String>, dir: Option<String>) -> bool {
    &&& program.len() > 0
    &&& nul_free(program)
    &&& forall|i: int| 0 <= i < args.len() ==> nul_free(#[trigger] args[i]@)
    &&& dir matches Some(d) ==> nul_free(d@)
}

fn is_nul_free(s: &str) -> (r: bool)
    ensures
        r == nul_free(s@),
{
    let b = s.as_bytes();
    let mut i: usize = 0;
    while i < b.len()
        invariant
            b@ == encode_utf8(s@),
            0 <= i <= b@.len(),
            forall|k: int| 0 <= k < i ==> b@[k] != 0,
        decreases b@.len() - i,
    {
        if b[i] == 0 {
            return false;
        }
        i = i + 1;
    }
    true
}

/// What the supervisor starts: the executable, its arguments, and the directory it runs in
/// (the host's own where none is given).
pub struct LaunchConfig {
    program: String,
    args: Vec<String>,
    working_dir: Option<String>,
}

impl LaunchConfig {
    pub closed spec fn spec_program(&self) -> Seq<char> {
        self.program@
    }

    pub closed spec fn spec_args(&self) -> Seq<String> {
        self.args@
    }

    pub closed spec fn spec_working_dir(&self) -> Option<String> {
        self.working_dir
    }

    /// A configuration, refused with `InvalidInput` exactly when it cannot be handed to
    /// the system.
    pub fn new(program: String, args: Vec<String>, working_dir: Option<String>) -> (r: Result<
        LaunchConfig,
        SpawnError,
    >)
        ensures
            r is Ok <==> launchable(program@, args@, working_dir),
            r is Err ==> r == Err::<LaunchConfig, SpawnError>(SpawnError::InvalidInput),
            r matches Ok(c) ==> c.spec_program() == program@ && c.spec_args() == args@
                && c.spec_working_dir() == working_dir,
    {
        if program.as_str().is_empty() || !is_nul_free(program.as_str()) {
            return Err(SpawnError::InvalidInput);
        }
        let mut i: usize = 0;
        while i < args.len()
            invariant
                0 <= i <= args@.len(),
                forall|k: int| 0 <= k < i ==> nul_free(#[trigger] args@[k]@),
            decreases args@.len() - i,
        {
            if !is_nul_free(args[i].as_str()) {
                return Err(SpawnError::InvalidInput);
            }
            i = i + 1;
        }
        match &working_dir {
            Some(d) => {
                if !is_nul_free(d.as_str()) {
                    return Err(SpawnError::InvalidInput);
                }
            },
            None => {},
        }
        Ok(LaunchConfig { program, args, working_dir })
    }

    pub fn program(&self) -> (r: &String)
        ensures
            r@ == self.spec_program(),
    {
        &self.program
    }

    pub fn args(&self) -> (r: &Vec<String>)
        ensures
            r@ == self.spec_args(),
    {
        &self.args
    }

    pub fn working_dir(&self) -> (r: &Option<String>)
        ensures
            *r == self.spec_working_dir(),
    {
        &self.working_dir
    }
}

} // verus!
