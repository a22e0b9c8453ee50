# rustgi

A lightweight, single-thread Web Server Gateway Interface (WSGI) server that runs Python web
applications from Rust. The logic of the server is verified with
[Verus](https://github.com/verus-lang/verus): each function states in its contract what it
returns or changes, and the laws that hold of several functions together are proof functions.

## Layout

- `src/` is the verified library.
  - `gateway` holds the settings of a server and turns a request into the environment that the
    application is called with; `service` does so for one client, `config` is what Python code
    sets.
  - `reader` reads a request body up to a limit, `input` and `environ` are what the application
    gets to see of a request.
  - `response` is the `start_response` callable and the body of a response; `wsgi` does the same
    for calls that are polled, and `body` says how much is to come.
  - `request` takes what a parser finds on one connection and writes the answers; `server` is the
    event loop over all connections, `io` tells the outcomes of socket operations apart, and `gil`
    decides who takes the interpreter lock.
  - `text`, `codec`, `types` and `error` are what the others share; `buffer`, `headers` and `uri`
    are the boundary to the `bytes` and `http` crates.
- `tests/` runs the library on concrete values.
- `app/` is ordinary Rust around the library: sockets, the Python module, and the traits of
  `hyper`, `tower`, `tokio` and `mio`.

## Features

- serves WSGI
- limits the size of request bodies

```python
import rustgi
from app import application

rustgi.serve(
    application,
    rustgi.RustgiConfig().set_address("0.0.0.0:8000"),
)
```

## What is trusted

The contracts of outside functions are believed, not proved. Each stands above the function that
makes the call and says what is claimed of it: `bytes::BytesMut` and `bytes::Bytes` in `buffer`,
header maps and response builders of `http` in `headers`, `http::Uri` in `uri`, percent-decoding,
Latin-1 and `std::str::from_utf8` in `codec`, `String::push` in `text` and `Arc::clone` in
`gateway`.
