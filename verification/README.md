# ai_proxy

A proxy that offers ChatGPT accounts at local addresses that OpenAI-compatible clients can use. Each
account has a port of its own; a dashboard shows the accounts and lets them log in.

The library in `src/` is verified with Verus: each function states in its contract what it gives, and
the laws (`law_...`) state what holds of the library as a whole. `app/` is the program around it: the
servers, the connections to providers, the files, and what is computed with floating point. `tests/`
runs the library with the crates that it calls.

- `text`, `order`, `paths`, `json`, `merge`: texts, sorting, paths, documents
- `outside`: the clock, chance, encodings and addresses
- `config`, `model`, `errors`, `startup`: the configuration, what is stored, errors, what is logged
- `accounts`, `login`, `callback`, `tokens`: accounts and their ports, logins, tokens
- `convert`, `responses`, `chat_stream`, `sse`: requests and answers, whole and as streams
- `proxy`, `headers`, `urls`: where a request goes, what is sent for it and how it is answered
- `usage`, `keep_alive`, `dashboard`, `request_log`: usage, quota windows, the page, the log
