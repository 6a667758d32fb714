# snolc_ng

The client side of snolc: profiles, the configuration that they become, and the
state of the desktop and Android application.

`src/` is the library. Each item of it is verified with Verus.

| module | what it holds |
| --- | --- |
| `text`, `order`, `paths`, `packages` | strings, their order, paths, sets of packages |
| `tree`, `node` | TOML documents as they are parsed, and as they are read |
| `value`, `document`, `options` | option values, writing them as TOML, which options a profile may carry |
| `codec`, `secret`, `control` | base64, SHA-256, random bytes, secrets, flat TOML documents |
| `profile`, `format`, `uri` | profiles, their TOML form, `snolc://profile/` URIs |
| `subscription`, `provisioning` | lists of profiles, registering a credential |
| `config`, `client`, `deploy`, `atomic` | the files of a client, where and how they are written |
| `install` | the modules that come with the application, and how they are installed |
| `state`, `session`, `ui` | the application: its state, what it does next, what it shows |
| `error`, `laws` | what can go wrong, what holds of the library as a whole |

The `toml`, `base64`, `sha2`, `getrandom`, `zeroize` and `serde` crates are called
through small functions marked `#[verifier::external_body]`, whose contracts are
taken on trust. They stand in `tree`, `document`, `control` and `codec`.

Paths are `/`-separated UTF-8 text in the library, as on Linux and Android. It decides what is written and
in which steps; `app/` takes the steps, talks to the network and to the platform,
draws the window and calls the `snolc` engine.

`tests/` runs the library on concrete values.
