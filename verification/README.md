# szelfibox

A photo booth: a phone streams its camera over `scrcpy`, buttons on the board
or on a serial button box take pictures, each picture shows on screen with a
QR code that links to its full version on the booth's picture server, and the
phone can print the latest picture.

`src/` is the verified library (Verus): the payload frame and its round trip,
the naming, encoding and framing of snapshots, the H.264 packet batcher and
its conservation of bytes, the server's file choice and answers, the commands
for `scrcpy`, `ffmpeg`, `adb` and `kioclient`, the button decisions and the
newest-file choice. `app/` holds the I/O around it: Tauri, GStreamer, GPIO,
the serial port, the HTTP server and the processes. `tests/` runs the library.
