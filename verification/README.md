# lamp

The logic of a Wi-Fi lamp that shows a colour on a ring of 24 LEDs and
exchanges colours with a partner lamp over MQTT, verified with Verus.

- `src/` — the verified library:
  - `text` — characters, splitting, replacing, decimal formatting and parsing;
  - `payload` — `key=value&…` form bodies;
  - `http_server` — page templates and the form handlers' logic;
  - `led` — the LED animation state machine;
  - `mqtt` — colour messages between lamps;
  - `wifi`, `utils` — connection decisions and names.
- `app/` — the firmware around it (ESP-IDF HTTP server, MQTT client, Wi-Fi,
  storage, LED driver). It embeds the HTML pages from `html/`.
- `tests/` — tests of the library.
