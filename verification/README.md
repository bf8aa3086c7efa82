# motux_fomod

Evaluation of FOMOD mod installer configurations (the XML format that mod
managers such as Mod Organizer 2 and Vortex use for guided installation
wizards), verified with Verus.

- `src/` is the verified library: dependency conditions and their evaluation
  context (`condition`), version comparison (`version`), the configuration
  model and plugin type resolution (`config`), stable sorting (`sorting`),
  path components (`paths`), and the installer wizard (`installer`: step and
  group navigation, selections and their flags, completion status and
  validation hints, the install plan, conflict and flag-impact analysis,
  undo history).
- `app/` reads `ModuleConfig.xml` / `info.xml` with `quick-xml` and serde,
  copies the files of an install plan, and looks up images on disk.
- `tests/` exercises the library on concrete configurations.
