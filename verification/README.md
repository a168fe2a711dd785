# drm_grabber

Grabs what a DRM device shows and turns it into a small image for ambient lighting.

`src/` is the library, verified with Verus:

- `plan` decides from what the kernel reports of a framebuffer what to read of it and how to decode
  it; `fourcc` names the formats and layouts.
- `linear`, `xtiled`, `sand` and `yuv420` decode the buffers; `pixel` converts single pixels.
- `rgb_image` holds images and `downscale` shrinks them.
- `find` and `hdr` find the framebuffer on the screen and whether HDR is on, one question to the
  device at a time.
- `maps` keeps the mappings of framebuffers, and `frames` says which frames are dumped anew and when.

`app/` is the program around it: the command line, the device, the connection to the Hyperion server
and the conversion from YUV to RGB.
