//! Command lines for a local podman: which arguments each operation passes,
//! and how the outcome of a finished command is judged.

use vstd::prelude::*;
use vstd::string::*;
use vstd::utf8::{decode_utf8, valid_utf8};

verus! {

/// The text that bytes stand for, with a replacement character for every
/// part that is not UTF-8.
pub uninterp spec fn lossy_text(bytes: Seq<u8>) -> Seq<char>;

/// `String::from_utf8_lossy`, as an owned string: valid UTF-8 is decoded as it is.
#[verifier::external_body]
fn lossy_string(bytes: &Vec<u8>) -> (text: String)
    ensures
        text@ == lossy_text(bytes@),
        valid_utf8(bytes@) ==> text@ == decode_utf8(bytes@),
{
    String::from_utf8_lossy(bytes).into_owned()
}

/// The arguments of a command line, as texts.
pub open spec fn texts(args: Seq<String>) -> Seq<Seq<char>> {
    args.map_values(|a: String| a@)
}

fn push_arg(args: &mut Vec<String>, arg: &str)
    ensures
        texts(final(args)@) == texts(old(args)@).push(arg@),
{
    args.push(String::from_str(arg));
    assert(texts(args@) =~= texts(old(args)@).push(arg@));
}

/// A handle on a podman binary.
#[derive(Debug)]
pub struct Podman {
    /// Path to the podman binary.
    podman_path: String,
}

/// The arguments of `podman inspect`.
pub open spec fn inspect_arguments(container: Seq<char>) -> Seq<Seq<char>> {
    seq!["inspect"@, container, "--format"@, "json"@]
}

/// The arguments of `podman ps`.
pub open spec fn ps_arguments(all: bool) -> Seq<Seq<char>> {
    if all {
        seq!["ps"@, "--all"@, "--format"@, "json"@]
    } else {
        seq!["ps"@, "--format"@, "json"@]
    }
}

/// The arguments of `podman rm`.
pub open spec fn rm_arguments(container: Seq<char>, force: bool) -> Seq<Seq<char>> {
    if force {
        seq!["rm"@, "--force"@, container]
    } else {
        seq!["rm"@, container]
    }
}

impl Podman {
    /// The path to the binary, as text.
    pub closed spec fn spec_path(&self) -> Seq<char> {
        self.podman_path@
    }

    /// Creates a new podman handle.
    pub fn new(podman_path: &str) -> (podman: Self)
        ensures
            podman.spec_path() == podman_path@,
    {
        Self { podman_path: String::from_str(podman_path) }
    }

    /// The path to the binary.
    pub fn path(&self) -> (path: &str)
        ensures
            path@ == self.spec_path(),
    {
        self.podman_path.as_str()
    }

    /// The command line that inspects `container`.
    pub fn inspect(&self, container: &str) -> (args: Vec<String>)
        ensures
            texts(args@) == inspect_arguments(container@),
    {
        let mut args: Vec<String> = Vec::new();
        assert(texts(args@) =~= Seq::empty());
        push_arg(&mut args, "inspect");
        push_arg(&mut args, container);
        push_arg(&mut args, "--format");
        push_arg(&mut args, "json");
        assert(texts(args@) =~= inspect_arguments(container@));
        args
    }

    /// The command line that lists containers, the stopped ones too if `all`.
    pub fn ps(&self, all: bool) -> (args: Vec<String>)
        ensures
            texts(args@) == ps_arguments(all),
    {
        let mut args: Vec<String> = Vec::new();
        assert(texts(args@) =~= Seq::empty());
        push_arg(&mut args, "ps");
        if all {
            push_arg(&mut args, "--all");
        }
        push_arg(&mut args, "--format");
        push_arg(&mut args, "json");
        assert(texts(args@) =~= ps_arguments(all));
        args
    }

    /// The command line that removes `container`.
    pub fn rm(&self, container: &str, force: bool) -> (args: Vec<String>)
        ensures
            texts(args@) == rm_arguments(container@, force),
    {
        let mut args: Vec<String> = Vec::new();
        assert(texts(args@) =~= Seq::empty());
        push_arg(&mut args, "rm");
        if force {
            push_arg(&mut args, "--force");
        }
        push_arg(&mut args, container);
        assert(texts(args@) =~= rm_arguments(container@, force));
        args
    }

    /// Starts the description of a `podman run` of `image_url`: detached,
    /// with TLS verification, and nothing else set.
    pub fn run(&self, image_url: &str) -> (command: StartCommand<'_>)
        ensures
            command@ == (StartSpec {
                env: Seq::empty(),
                image_url: image_url@,
                name: None,
                rm: false,
                rmi: false,
                tls_verify: true,
                publish: Seq::empty(),
            }),
            command.podman() == self,
    {
        let command = StartCommand {
            podman: self,
            image_url: String::from_str(image_url),
            rm: false,
            name: None,
            rmi: false,
            tls_verify: true,
            env: Vec::new(),
            publish: Vec::new(),
        };
        assert(command@.env =~= Seq::empty());
        assert(command@.publish =~= Seq::empty());
        command
    }
}

/// What a `podman run` is set to do.
pub ghost struct StartSpec {
    pub env: Seq<(Seq<char>, Seq<char>)>,
    pub image_url: Seq<char>,
    pub name: Option<Seq<char>>,
    pub rm: bool,
    pub rmi: bool,
    pub tls_verify: bool,
    pub publish: Seq<Seq<char>>,
}

/// A `podman run` that is being put together.
pub struct StartCommand<'a> {
    podman: &'a Podman,
    env: Vec<(String, String)>,
    image_url: String,
    name: Option<String>,
    rm: bool,
    rmi: bool,
    tls_verify: bool,
    publish: Vec<String>,
}

impl<'a> View for StartCommand<'a> {
    type V = StartSpec;

    closed spec fn view(&self) -> StartSpec {
        StartSpec {
            env: self.env@.map_values(|e: (String, String)| (e.0@, e.1@)),
            image_url: self.image_url@,
            name: match self.name {
                Some(name) => Some(name@),
                None => None,
            },
            rm: self.rm,
            rmi: self.rmi,
            tls_verify: self.tls_verify,
            publish: texts(self.publish@),
        }
    }
}

/// The `-p` options for the published ports, in order.
pub open spec fn publish_arguments(publish: Seq<Seq<char>>) -> Seq<Seq<char>>
    decreases publish.len(),
{
    if publish.len() == 0 {
        Seq::empty()
    } else {
        publish_arguments(publish.drop_last()) + seq!["-p"@, publish.last()]
    }
}

/// The `-e` options for the environment variables, in order.
pub open spec fn env_arguments(env: Seq<(Seq<char>, Seq<char>)>) -> Seq<Seq<char>>
    decreases env.len(),
{
    if env.len() == 0 {
        Seq::empty()
    } else {
        env_arguments(env.drop_last()) + seq!["-e"@, env.last().0 + "="@ + env.last().1]
    }
}

/// The arguments of `podman run` up to the published ports.
pub open spec fn run_head(spec: StartSpec) -> Seq<Seq<char>> {
    seq![
        "run"@,
        if spec.tls_verify {
            "--tls-verify=true"@
        } else {
            "--tls-verify=false"@
        },
        "--detach"@,
    ] + (if spec.rm {
        seq!["--rm"@]
    } else {
        Seq::empty()
    }) + (if spec.rmi {
        seq!["--rmi"@]
    } else {
        Seq::empty()
    }) + (match spec.name {
        Some(name) => seq!["--name"@, name],
        None => Seq::empty(),
    })
}

/// The arguments of the whole `podman run`.
pub open spec fn run_arguments(spec: StartSpec) -> Seq<Seq<char>> {
    run_head(spec) + publish_arguments(spec.publish) + env_arguments(spec.env) + seq![
        spec.image_url,
    ]
}

impl<'a> StartCommand<'a> {
    /// The podman that will run the command.
    pub closed spec fn podman(&self) -> &Podman {
        self.podman
    }

    /// Sets the environment variable `var` to `value` in the container.
    pub fn env(&mut self, var: &str, value: &str) -> (r: &mut Self)
        ensures
            r@ == (StartSpec { env: old(self)@.env.push((var@, value@)), ..old(self)@ }),
            r.podman() == old(self).podman(),
            *final(self) == *final(r),
    {
        self.env.push((String::from_str(var), String::from_str(value)));
        assert(self@.env =~= old(self)@.env.push((var@, value@)));
        self
    }

    /// Names the container.
    pub fn name(&mut self, name: &str) -> (r: &mut Self)
        ensures
            r@ == (StartSpec { name: Some(name@), ..old(self)@ }),
            r.podman() == old(self).podman(),
            *final(self) == *final(r),
    {
        self.name = Some(String::from_str(name));
        self
    }

    /// Publishes a port of the container.
    pub fn publish(&mut self, publish: &str) -> (r: &mut Self)
        ensures
            r@ == (StartSpec { publish: old(self)@.publish.push(publish@), ..old(self)@ }),
            r.podman() == old(self).podman(),
            *final(self) == *final(r),
    {
        self.publish.push(String::from_str(publish));
        assert(self@.publish =~= old(self)@.publish.push(publish@));
        self
    }

    /// Has the container removed when it exits.
    pub fn rm(&mut self) -> (r: &mut Self)
        ensures
            r@ == (StartSpec { rm: true, ..old(self)@ }),
            r.podman() == old(self).podman(),
            *final(self) == *final(r),
    {
        self.rm = true;
        self
    }

    /// Has the image removed when the container exits.
    pub fn rmi(&mut self) -> (r: &mut Self)
        ensures
            r@ == (StartSpec { rmi: true, ..old(self)@ }),
            r.podman() == old(self).podman(),
            *final(self) == *final(r),
    {
        self.rmi = true;
        self
    }

    /// Sets whether TLS certificates are verified when the image is pulled.
    pub fn tls_verify(&mut self, tls_verify: bool) -> (r: &mut Self)
        ensures
            r@ == (StartSpec { tls_verify, ..old(self)@ }),
            r.podman() == old(self).podman(),
            *final(self) == *final(r),
    {
        self.tls_verify = tls_verify;
        self
    }

    /// The command line that runs the container as set up.
    pub fn arguments(&self) -> (args: Vec<String>)
        ensures
            texts(args@) == run_arguments(self@),
    {
        let mut args: Vec<String> = Vec::new();
        assert(texts(args@) =~= Seq::empty());
        push_arg(&mut args, "run");
        if self.tls_verify {
            push_arg(&mut args, "--tls-verify=true");
        } else {
            push_arg(&mut args, "--tls-verify=false");
        }
        push_arg(&mut args, "--detach");
        if self.rm {
            push_arg(&mut args, "--rm");
        }
        if self.rmi {
            push_arg(&mut args, "--rmi");
        }
        match &self.name {
            Some(name) => {
                push_arg(&mut args, "--name");
                push_arg(&mut args, name.as_str());
            },
            None => {},
        }
        assert(texts(args@) =~= run_head(self@));

        let mut i: usize = 0;
        while i < self.publish.len()
            invariant
                i <= self.publish@.len(),
                texts(args@) == run_head(self@) + publish_arguments(
                    self@.publish.subrange(0, i as int),
                ),
            decreases self.publish@.len() - i,
        {
            let ghost before = texts(args@);
            push_arg(&mut args, "-p");
            push_arg(&mut args, self.publish[i].as_str());
            proof {
                let upto = self@.publish.subrange(0, i + 1);
                assert(upto.drop_last() =~= self@.publish.subrange(0, i as int));
                assert(upto.last() == self.publish@[i as int]@);
                assert(texts(args@) =~= run_head(self@) + publish_arguments(upto));
            }
            i += 1;
        }
        assert(self@.publish.subrange(0, i as int) =~= self@.publish);

        let mut j: usize = 0;
        while j < self.env.len()
            invariant
                j <= self.env@.len(),
                texts(args@) == run_head(self@) + publish_arguments(self@.publish)
                    + env_arguments(self@.env.subrange(0, j as int)),
            decreases self.env@.len() - j,
        {
            let mut setting = String::from_str(self.env[j].0.as_str());
            setting.append("=");
            setting.append(self.env[j].1.as_str());
            push_arg(&mut args, "-e");
            push_arg(&mut args, setting.as_str());
            proof {
                let upto = self@.env.subrange(0, j + 1);
                assert(upto.drop_last() =~= self@.env.subrange(0, j as int));
                assert(upto.last() == (self.env@[j as int].0@, self.env@[j as int].1@));
                assert(texts(args@) =~= run_head(self@) + publish_arguments(self@.publish)
                    + env_arguments(upto));
            }
            j += 1;
        }
        assert(self@.env.subrange(0, j as int) =~= self@.env);

        push_arg(&mut args, self.image_url.as_str());
        args
    }
}

/// What a finished command left behind.
#[derive(Debug)]
pub struct CommandOutput {
    pub success: bool,
    pub stdout: Vec<u8>,
    pub stderr: Vec<u8>,
}

/// A command that could not be run, or that ended in failure.
#[derive(Debug)]
pub struct CommandError {
    /// What went wrong.
    pub message: String,
    /// What the command wrote to its standard output, if it ran.
    pub stdout: Option<Vec<u8>>,
    /// What the command wrote to its standard error, if it ran.
    pub stderr: Option<Vec<u8>>,
}

/// The lines that show one captured stream under `label`.
pub open spec fn stream_text(label: Seq<char>, stream: Option<Vec<u8>>) -> Seq<char> {
    match stream {
        Some(bytes) => label + lossy_text(bytes@) + "\n"@,
        None => Seq::empty(),
    }
}

/// The text that describes a command error.
pub open spec fn error_text(error: &CommandError) -> Seq<char> {
    error.message@ + stream_text("\nstdout: "@, error.stdout) + stream_text(
        "\nstderr: "@,
        error.stderr,
    )
}

impl CommandError {
    /// The error of a command that could not be run at all.
    pub fn from_message(message: String) -> (error: CommandError)
        ensures
            error.message == message,
            error.stdout.is_none(),
            error.stderr.is_none(),
    {
        CommandError { message, stdout: None, stderr: None }
    }

    /// The message, followed by what the command wrote, as far as it ran.
    pub fn describe(&self) -> (text: String)
        ensures
            text@ == error_text(self),
    {
        let mut text = self.message.clone();
        match &self.stdout {
            Some(bytes) => {
                text.append("\nstdout: ");
                text.append(lossy_string(bytes).as_str());
                text.append("\n");
            },
            None => {},
        }
        assert(text@ =~= self.message@ + stream_text("\nstdout: "@, self.stdout));
        match &self.stderr {
            Some(bytes) => {
                text.append("\nstderr: ");
                text.append(lossy_string(bytes).as_str());
                text.append("\n");
            },
            None => {},
        }
        assert(text@ =~= error_text(self));
        text
    }
}

/// Judges a finished command: its output if it succeeded, and otherwise an
/// error that carries what it wrote.
pub fn checked_output(output: CommandOutput) -> (r: Result<CommandOutput, CommandError>)
    ensures
        match r {
            Ok(out) => output.success && out == output,
            Err(e) => !output.success && e.message@ == "non-zero exit status"@ && e.stdout == Some(
                output.stdout,
            ) && e.stderr == Some(output.stderr),
        },
{
    if !output.success {
        return Err(
            CommandError {
                message: String::from_str("non-zero exit status"),
                stdout: Some(output.stdout),
                stderr: Some(output.stderr),
            },
        );
    }
    Ok(output)
}

} // verus!
