//! Which server binary to run, and the chatmail relay a new profile is
//! made on by default.

use vstd::prelude::*;

use crate::text::{has_prefix, same_text, strip_prefix};

verus! {

/// Default chatmail server, as the `dcaccount:` payload
/// `add_transport_from_qr` takes.
pub const DEFAULT_PROVIDER_QR: &'static str = "dcaccount:nine.testrun.org";

/// Where the package installs the server: beside the app, and not on `PATH`.
pub const BUNDLED_SERVER: &'static str = "/usr/libexec/harbour-postivene/deltachat-rpc-server";

/// The flag that names the server, with its value as the next argument.
pub const SERVER_FLAG: &'static str = "--rpc-server";

/// The flag that names the server, with its value after `=`.
pub const SERVER_FLAG_EQ: &'static str = "--rpc-server=";

/// The server the arguments name: the argument after the first
/// `--rpc-server`, or what follows `--rpc-server=`, whichever comes first.
/// A `--rpc-server` with nothing after it names nothing.
pub open spec fn named_server(args: Seq<Seq<char>>) -> Option<Seq<char>>
    decreases args.len(),
{
    if args.len() == 0 {
        None
    } else if args[0] == SERVER_FLAG@ {
        if args.len() >= 2 {
            Some(args[1])
        } else {
            None
        }
    } else if has_prefix(args[0], SERVER_FLAG_EQ@) {
        Some(args[0].subrange(SERVER_FLAG_EQ@.len() as int, args[0].len() as int))
    } else {
        named_server(args.drop_first())
    }
}

/// The server to run: the one the arguments name, else a non-empty
/// environment value, else the bundled binary. Never a name to be looked
/// up on a search path unless somebody wrote one.
pub open spec fn chosen_server(args: Seq<Seq<char>>, env: Option<Seq<char>>) -> Seq<char> {
    match named_server(args) {
        Some(path) => path,
        None => match env {
            Some(value) if value.len() > 0 => value,
            _ => BUNDLED_SERVER@,
        },
    }
}

/// Which server binary to run: `--rpc-server <path>` or
/// `--rpc-server=<path>` from `args`, else `env` (the value of
/// `POSTIVENE_RPC_SERVER`) when it is not empty, else [`BUNDLED_SERVER`].
pub fn server_path(args: Vec<String>, env: Option<String>) -> (path: String)
    ensures
        path@ == chosen_server(crate::text::texts(args@), match env {
            Some(e) => Some(e@),
            None => None,
        }),
        forall|k: int|
            0 <= k && k + 1 < args@.len() && #[trigger] args@[k]@ == "--rpc-server"@ && (forall|j: int|
                0 <= j < k ==> args@[j]@ != "--rpc-server"@ && !has_prefix(args@[j]@, "--rpc-server="@))
                ==> path@ == args@[k + 1]@,
{
    let ghost all = crate::text::texts(args@);
    proof {
        assert forall|k: int|
            0 <= k && k + 1 < args@.len() && #[trigger] args@[k]@ == "--rpc-server"@ && (forall|j: int|
                0 <= j < k ==> args@[j]@ != "--rpc-server"@ && !has_prefix(args@[j]@, "--rpc-server="@))
                implies named_server(all) == Some(args@[k + 1]@) by {
            let pre = all.take(k);
            let post = all.skip(k + 2);
            assert(all =~= pre + seq!["--rpc-server"@, args@[k + 1]@] + post);
            assert forall|j: int| 0 <= j < pre.len() implies #[trigger] pre[j] != "--rpc-server"@ && !has_prefix(
                pre[j],
                "--rpc-server="@,
            ) by {
                assert(pre[j] == args@[j]@);
            }
            the_flag_is_honoured_wherever_it_stands(pre, args@[k + 1]@, post, None);
        }
    }
    let n = args.len();
    let mut i: usize = 0;
    proof {
        assert(all.subrange(0, n as int) =~= all);
    }
    while i < n
        invariant
            n == args@.len(),
            i <= n,
            all == crate::text::texts(args@),
            named_server(all) == named_server(all.subrange(i as int, n as int)),
            forall|k: int|
                0 <= k && k + 1 < args@.len() && #[trigger] args@[k]@ == "--rpc-server"@ && (forall|j: int|
                    0 <= j < k ==> args@[j]@ != "--rpc-server"@ && !has_prefix(args@[j]@, "--rpc-server="@))
                    ==> named_server(all) == Some(args@[k + 1]@),
        decreases n - i,
    {
        let ghost rest = all.subrange(i as int, n as int);
        proof {
            assert(rest[0] == args@[i as int]@);
            assert(rest.drop_first() =~= all.subrange(i + 1, n as int));
        }
        if same_text(args[i].as_str(), SERVER_FLAG) {
            if i + 1 < n {
                assert(rest[1] == args@[i + 1]@);
                return args[i + 1].clone();
            }
            return choose_fallback(env);
        } else if let Some(path) = strip_prefix(args[i].as_str(), SERVER_FLAG_EQ) {
            return path;
        }
        i = i + 1;
    }
    choose_fallback(env)
}

/// The flag is honoured wherever it stands: the arguments before it (the
/// invoker's own, say) name no server, and its value is the server to run,
/// whatever follows and whatever the environment holds.
pub proof fn the_flag_is_honoured_wherever_it_stands(
    pre: Seq<Seq<char>>,
    path: Seq<char>,
    post: Seq<Seq<char>>,
    env: Option<Seq<char>>,
)
    requires
        forall|j: int|
            0 <= j < pre.len() ==> #[trigger] pre[j] != "--rpc-server"@ && !has_prefix(pre[j], "--rpc-server="@),
    ensures
        named_server(pre + seq!["--rpc-server"@, path] + post) == Some(path),
        chosen_server(pre + seq!["--rpc-server"@, path] + post, env) == path,
    decreases pre.len(),
{
    let args = pre + seq!["--rpc-server"@, path] + post;
    if pre.len() == 0 {
        assert(args[0] == "--rpc-server"@);
        assert(args[1] == path);
    } else {
        assert(args[0] == pre[0]);
        assert(args.drop_first() =~= pre.drop_first() + seq!["--rpc-server"@, path] + post);
        assert forall|j: int| 0 <= j < pre.drop_first().len() implies #[trigger] pre.drop_first()[j]
            != "--rpc-server"@ && !has_prefix(pre.drop_first()[j], "--rpc-server="@) by {
            assert(pre.drop_first()[j] == pre[j + 1]);
        }
        the_flag_is_honoured_wherever_it_stands(pre.drop_first(), path, post, env);
    }
}

/// `--rpc-server=<path>` is honoured wherever it stands, as the spaced
/// form is.
pub proof fn the_joined_flag_is_honoured_wherever_it_stands(
    pre: Seq<Seq<char>>,
    path: Seq<char>,
    post: Seq<Seq<char>>,
    env: Option<Seq<char>>,
)
    requires
        forall|j: int|
            0 <= j < pre.len() ==> #[trigger] pre[j] != "--rpc-server"@ && !has_prefix(pre[j], "--rpc-server="@),
    ensures
        named_server(pre + seq!["--rpc-server="@ + path] + post) == Some(path),
        chosen_server(pre + seq!["--rpc-server="@ + path] + post, env) == path,
    decreases pre.len(),
{
    let args = pre + seq!["--rpc-server="@ + path] + post;
    if pre.len() == 0 {
        reveal_strlit("--rpc-server=");
        reveal_strlit("--rpc-server");
        let arg = "--rpc-server="@ + path;
        assert(args[0] == arg);
        assert(arg.subrange(0, 13) =~= "--rpc-server="@);
        assert(arg.len() != "--rpc-server"@.len());
        assert(arg.subrange(13, arg.len() as int) =~= path);
    } else {
        assert(args[0] == pre[0]);
        assert(args.drop_first() =~= pre.drop_first() + seq!["--rpc-server="@ + path] + post);
        assert forall|j: int| 0 <= j < pre.drop_first().len() implies #[trigger] pre.drop_first()[j]
            != "--rpc-server"@ && !has_prefix(pre.drop_first()[j], "--rpc-server="@) by {
            assert(pre.drop_first()[j] == pre[j + 1]);
        }
        the_joined_flag_is_honoured_wherever_it_stands(pre.drop_first(), path, post, env);
    }
}

fn choose_fallback(env: Option<String>) -> (path: String)
    ensures
        path@ == (match env {
            Some(value) if value@.len() > 0 => value@,
            _ => BUNDLED_SERVER@,
        }),
{
    match env {
        Some(value) => {
            if value.as_str().unicode_len() > 0 {
                value
            } else {
                BUNDLED_SERVER.to_owned()
            }
        },
        None => BUNDLED_SERVER.to_owned(),
    }
}

/// With no server named in the arguments, a non-empty environment value
/// is the server, as it stands.
pub proof fn the_environment_names_the_server_otherwise(args: Seq<Seq<char>>, value: Seq<char>)
    requires
        forall|j: int|
            0 <= j < args.len() ==> #[trigger] args[j] != "--rpc-server"@ && !has_prefix(args[j], "--rpc-server="@),
        value.len() > 0,
    ensures
        named_server(args) is None,
        chosen_server(args, Some(value)) == value,
    decreases args.len(),
{
    if args.len() > 0 {
        assert(args[0] != "--rpc-server"@);
        assert forall|j: int| 0 <= j < args.drop_first().len() implies #[trigger] args.drop_first()[j]
            != "--rpc-server"@ && !has_prefix(args.drop_first()[j], "--rpc-server="@) by {
            assert(args.drop_first()[j] == args[j + 1]);
        }
        the_environment_names_the_server_otherwise(args.drop_first(), value);
    }
}

/// A server named by nobody is the bundled one, which is an absolute path:
/// an empty environment value does not turn the choice into a bare name.
pub proof fn unnamed_server_is_the_bundle(args: Seq<Seq<char>>, env: Option<Seq<char>>)
    requires
        named_server(args) is None,
        env is None || env.unwrap().len() == 0,
    ensures
        chosen_server(args, env) == BUNDLED_SERVER@,
        chosen_server(args, env)[0] == '/',
{
    reveal_strlit("/usr/libexec/harbour-postivene/deltachat-rpc-server");
}

} // verus!
