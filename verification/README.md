# rust_ball_tracking

Tracks a coloured ball in a camera feed or a sample video and reports its
offset from the middle of the frame.

- `src/` is the verified library (Verus):
  - `geometry.rs`: points, the exact doubled area of a contour, and the
    choice of the largest contour, with the laws that area does not depend on
    where a contour's listing starts or which way round it goes.
  - `tracker.rs`: the tracking state, the size rule for the ball, the
    offset from the middle of the frame, and where the marks are drawn.
  - `playback.rs`: end-of-stream test, frame pacing, and the Escape key.
- `app/main.rs` is the program: command line, camera or video input, the
  OpenCV image processing (all floating point), drawing and the window.
- `tests/` exercises the library on concrete values.
