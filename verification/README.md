# http_proxy

The decisions of an HTTP proxy, verified with Verus, and the proxy around them.

- `src/` is the library: time specifications (`timespec`, `crontab`), the configuration with its
  users and rules (`config`), the credentials of a client (`authorization`), what becomes of a
  request (`proxy`, `exchange`), and counters (`stats`, `meter`). `pattern` and `clock` hold the
  calls of the `regex` and `chrono` crates, `text` cuts and reads text.
- `app/` is the program: it reads `config.yml`, serves connections, and does what the library
  decides.
- `tests/` runs the library on examples.

A configuration looks like this:

```yaml
bind_addr: 127.0.0.1
bind_port: 3000
users:
  - username: ann
    password: secret
default_allow: false
allowed:
  - timespec: "* 8-17 * * 1-5"
    regex: "^([a-z]+\\.)?example\\.com:443$"
blocked: []
```

With `default_allow: true` every host may be reached but those that a rule under `blocked` matches;
otherwise none but those that a rule under `allowed` matches.

Nothing is cached between requests: an access check reads the time specification and compiles the
regular expression of each rule that it comes to, once.
