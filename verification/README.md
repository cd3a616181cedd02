# ka9q-tci

A bridge from the IQ streams of [ka9q-radio](https://github.com/ka9q/ka9q-radio) to TCI WebSocket
servers. `src/` is a library whose behaviour is stated in contracts and proved with Verus; `app/` is
the program around it, which does the input and output.

| Module | Content |
|---|---|
| `radiod::tlv` | codec of radiod's control packets |
| `radiod::rtp` | parser of RTP headers |
| `radiod::control` | status packets, commands with tags, choice of an address |
| `radiod::multicast` | errors of multicast sockets |
| `tci::protocol` | text commands, handshake and IQ frames of TCI |
| `tci::state` | state of the receivers of a server |
| `tci::server` | replies to commands, requests to the bridge, sessions of clients |
| `tci::laws` | what replies mean to a reader of the protocol, and commands to radiod |
| `bridge` | table of channels, commands for radiod, samples to frames |
| `channels` | the channels of radiod, shared out among the servers |
| `config`, `config_file`, `endpoints` | from options and configuration file to servers |
| `ieee` | IEEE 754 numbers as bit patterns |
| `decimal`, `text`, `addr` | numerals, text and addresses |

Functions named `law_...` state and prove what holds of the library as a whole.
