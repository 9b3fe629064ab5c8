//! Command lines of the external tools Swiss drives: cargo and Nushell.
use crate::parser::Os;
use crate::text;
use crate::text::to_owned;
use vstd::prelude::*;

verus! {

/// Location of the cargo binary, relative to the home directory.
pub const CARGO_BIN_PATH: &'static str = ".cargo/bin/cargo";

/// The cargo subcommand that installs packages.
pub const INSTALL_COMMAND: &'static str = "binstall";

/// Cargo, driven through `~/.cargo/bin/cargo`.
#[derive(Debug)]
pub struct Cargo {}

impl Cargo {
    /// The cargo arguments that install `package`: `binstall -y <package> <args>`.
    pub fn install(package: &str, args: &Vec<String>) -> (r: Vec<String>)
        ensures
            text::strs_view(r@) == seq!["binstall"@, "-y"@, package@] + text::strs_view(args@),
    {
        let mut run_args = vec![to_owned(INSTALL_COMMAND), to_owned("-y"), to_owned(package)];
        assert(text::strs_view(run_args@) =~= seq!["binstall"@, "-y"@, package@]);
        text::extend_strings(&mut run_args, args);
        run_args
    }
}

/// The Nushell binary name on `os`.
pub open spec fn nu_binary_view(os: Os) -> Seq<char> {
    match os {
        Os::Windows => "nu.exe"@,
        _ => "nu"@,
    }
}

/// Nushell, driven through its binary.
#[derive(Debug)]
pub struct NuShell {}

impl NuShell {
    /// The Nushell binary name on `os`.
    pub fn binary(os: Os) -> (r: &'static str)
        ensures
            r@ == nu_binary_view(os),
    {
        match os {
            Os::Windows => "nu.exe",
            _ => "nu",
        }
    }

    /// The arguments that make Nushell print `env_name` (`$nu.env-path`...).
    pub fn get_env_value(env_name: &str, os: Os) -> (r: Vec<String>)
        ensures
            text::strs_view(r@) == match os {
                Os::Windows => seq!["-c"@, "echo "@ + env_name@],
                _ => seq!["-c"@, env_name@],
            },
    {
        match os {
            Os::Windows => {
                let mut command = to_owned("echo ");
                command.append(env_name);
                let r = vec![to_owned("-c"), command];
                assert(text::strs_view(r@) =~= seq!["-c"@, "echo "@ + env_name@]);
                r
            },
            _ => {
                let r = vec![to_owned("-c"), to_owned(env_name)];
                assert(text::strs_view(r@) =~= seq!["-c"@, env_name@]);
                r
            },
        }
    }

    /// The installed version, from the output of `nu --version`.
    pub fn version(output: &str) -> (r: String)
        ensures
            r@ == text::trim_seq(output@),
    {
        text::trim(output)
    }

    /// The cargo arguments that build and install Nushell at `version`.
    pub fn install(version: &str) -> (r: Vec<String>)
        ensures
            text::strs_view(r@) == seq!["install"@, "nu@"@ + version@, "--all-features"@],
    {
        let mut package = to_owned("nu@");
        package.append(version);
        let r = vec![to_owned("install"), package, to_owned("--all-features")];
        assert(text::strs_view(r@) =~= seq!["install"@, "nu@"@ + version@, "--all-features"@]);
        r
    }
}

/// Nushell environment variables.
#[derive(Debug)]
pub struct NuEnv {}

impl NuEnv {
    /// The Nushell expression that reads the environment variable `name`.
    pub fn get_value(name: &str) -> (r: String)
        ensures
            r@ == "$env."@ + name@,
    {
        let mut r = to_owned("$env.");
        r.append(name);
        r
    }
}

} // verus!
