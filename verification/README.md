# awsvpn

A client for AWS Client VPN endpoints with SAML login, with its logic verified
by [Verus](https://github.com/verus-lang/verus).

The library decides, the program acts. `src/` holds everything that can be
decided from plain values: what a line of OpenVPN's management interface means,
which command answers it, whether a callback of the browser carries an
assertion, what goes into the log, which routes and resolvers were pushed, what
the daemon answers and when it reconnects. Each function says in its contract
what it returns, and laws that relate several functions are proved beside them.
`app/` holds files, sockets, processes and signals: it performs the action that
the library returns and hands back what came of it.

## Modules

| Module | What it decides |
| --- | --- |
| `text`, `split`, `number`, `path`, `net`, `ipv6`, `timeout` | texts, numbers, paths, addresses and times |
| `config` | what an OpenVPN configuration offers |
| `client`, `connect`, `runtime` | options, the steps of a connection, the OpenVPN program |
| `openvpn` | the arguments, the management protocol, pushed options |
| `saml` | the callback server, the browser, the login |
| `dns`, `routes` | the resolver of macOS and Linux, the local proxy, lost routes |
| `daemon` | the control protocol, the daemon's files, its control loop |
| `logredact` | what is kept out of logs |
| `diagnose`, `cli` | diagnostics and the command line |

## The OpenVPN program

The program uses the OpenVPN that `--openvpn` names, or else the one that was
installed with it: the files of the first directory among `openvpn`,
`resources/openvpn`, `runtime/openvpn` and `../libexec/awsvpn/openvpn`, beside
the program, that holds `acvc-openvpn` or `openvpn`. These files are unpacked to
a private directory, and `acvc-openvpn` is run from there.

## What is taken on trust

Six small functions call other crates or the standard library, and their
contracts are not proved: `url::Url::parse`, `url::form_urlencoded::parse`,
`webbrowser::Browser` (reading and writing names), the generator of `rand`, and
`std::str::from_utf8`. One more contract is stated for `String::push`.
