# mumd

A Mumble voice client daemon. `src/` is the verified library (Verus): the
decisions of the control channel receiver, the voice channel ping and
receiver, the audio encoder, the capture frame collector and the decoder's
stream table, plus key material, settings and messages. `app/` is the
daemon around it: sockets, TLS, the audio devices and codec, logging and
configuration files.

`CommandResponse` has no `ChannelList` or `Status` variant: the types they
carry (`Channel`, `Server`) are not defined in this repository. Nor is the
playback stream type that `app/audio.rs` uses from its `output` module, so
`app/` does not build on its own.
