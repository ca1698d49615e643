# iosmic

Stream microphone audio from an iOS device to Linux applications.

`iosmic` connects to the iOS app over USB or Wi-Fi, decodes the AAC stream, and writes PCM audio to
an ALSA playback device. By default it creates a virtual microphone in PulseAudio or PipeWire and
plays into it; with `--device` it writes to the ALSA device that is named.

- `src/` is the library: framing, the codec's configuration, the jitter buffer, the buffering
  policy, the state machines of the playback thread and of the session, the names and arguments of
  the virtual microphone, and the jitter measurement. All of it is verified with Verus: the
  contracts say what each function decides, and the public proof functions state what holds across
  functions. What the AAC codec makes of a configuration, and what a playback device answers, is
  not the library's to say: the contracts name the codec's result and hand the device's answers on.
- `app/` is the program: command line, sockets, threads, ALSA, PulseAudio, and all that computes
  in floating point.
- `tests/` runs the library on concrete values.

## Usage

```text
iosmic                          # USB, virtual microphone "iOS Microphone"
iosmic --host 192.168.0.114     # Wi-Fi
iosmic --device plughw:0,0      # write to an ALSA device instead
```

| option | meaning | default |
| --- | --- | --- |
| `-H`, `--host` | Wi-Fi address of the device | USB |
| `-P`, `--port` | port | 4747 |
| `-D`, `--device` | ALSA playback device | virtual microphone |
| `--source-name` | name of the virtual microphone | `iosmic` |
| `--source-description` | label of the virtual microphone | `iOS Microphone` |
| `--sink-name` | name of the sink behind it | source name and `_sink` |
| `-b`, `--buffer` | audio held back, 50 to 500 ms | 50 over USB, 100 over Wi-Fi |
| `--max-buffer` | most audio held, 100 to 2000 ms | twice the audio held back |
| `--alsa-buffer` | buffer asked of ALSA, 20 to 200 ms | 40 |
| `--starvation-reconnect` | reconnect after running dry, 250 to 5000 ms | 1500 |

`IOSMIC_PTS_DEBUG=1` logs the timing of each decoded packet; `IOSMIC_TIMING_DEBUG=1` logs that and
the state of playback.
