# THSR auto booking

A booking client for Taiwan High Speed Rail. It polls the booking flow, takes
the first train that departs in time, and closes the booking. The CAPTCHA is
typed by a person, on a page that the program serves itself.

- `src/` is the library: what is read off the site's pages, the forms that are
  sent back, the CAPTCHA page and its little HTTP server, the messages, and when
  there is another attempt. All of it is verified with Verus.
- `app/` is the program around it: command line, network, threads and files.
- `tests/` runs the library on concrete pages and requests.

What the library takes on trust are the calls into `scraper` (`src/page.rs`),
`serde_urlencoded` (`src/form.rs`), `reqwest`'s header map (`src/header.rs`) and
two functions of the standard library (`src/text.rs`, `src/form.rs`).

## Environment variables

- `THSR_PERSONAL_ID`: the personal ID of the first passenger
- `THSR_PUBLIC_URL`, `RAILWAY_PUBLIC_DOMAIN`, `RAILWAY_STATIC_URL`: the public
  address of the CAPTCHA page, in this order
- `PORT`: the port to listen on
- `TELEGRAM_BOT_TOKEN`, `TELEGRAM_CHAT_ID`: where messages are sent
