use vstd::prelude::*;

verus! {

/// Why a command of `dc` fails.
#[derive(Debug)]
pub enum DcError {
    /// Neither `DC_HOME` nor a home directory is known.
    NoHomeDirectory,
    /// No template is shown under the name that was asked for.
    TemplateNotFound(String),
    /// No template was named and there is no terminal to choose one on.
    NoTerminal,
    /// `docker build` ran and failed for the template at this path.
    DockerBuildFailed(String),
    /// `docker run` ran and ended with this status.
    DockerRunFailed(String),
}

/// The text that reports `e`.
pub open spec fn error_text(e: DcError) -> Seq<char> {
    match e {
        DcError::NoHomeDirectory => "could not locate home directory"@,
        DcError::TemplateNotFound(name) => "template '"@ + name@ + "' not found"@,
        DcError::NoTerminal => "no template specified and no terminal available for selection"@,
        DcError::DockerBuildFailed(path) => "docker build failed for '"@ + path@ + "'"@,
        DcError::DockerRunFailed(status) => "docker run exited with "@ + status@,
    }
}

impl DcError {
    /// The text that reports this error.
    pub fn message(&self) -> (res: String)
        ensures
            res@ == error_text(*self),
    {
        match self {
            DcError::NoHomeDirectory => "could not locate home directory".to_owned(),
            DcError::TemplateNotFound(name) => {
                let mut res = "template '".to_owned();
                res.append(name.as_str());
                res.append("' not found");
                res
            },
            DcError::NoTerminal => "no template specified and no terminal available for selection".to_owned(),
            DcError::DockerBuildFailed(path) => {
                let mut res = "docker build failed for '".to_owned();
                res.append(path.as_str());
                res.append("'");
                res
            },
            DcError::DockerRunFailed(status) => {
                let mut res = "docker run exited with ".to_owned();
                res.append(status.as_str());
                res
            },
        }
    }
}

} // verus!
