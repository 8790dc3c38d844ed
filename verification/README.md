# minesweeper

A terminal minesweeper game with mouse and keyboard controls and three
difficulties, whose rules come with machine-checked proofs.

- `src/` is the library, with its contracts and proofs:
  - `config.rs`: the difficulties and the command line arguments;
  - `field.rs`: cells, the playing field, clicking, flagging, revealing, winning;
  - `mining.rs`: where the first click may lay bombs, and how many it lays;
  - `spread.rs`: how a click spreads over cells without bombs around;
  - `render.rs`: how cells and the field are drawn as text;
  - `game/controller.rs`: what an action does to the game;
  - `game/view.rs`: the cursor and how it answers key presses and mouse clicks;
  - `laws.rs`: properties that relate several operations.
- `app/` is the terminal front end: command line parsing, the raw terminal,
  reading events and drawing.

## Controls

| key                | description                |
| ------------------ | -------------------------- |
| Left click         | Reveal clicked cell        |
| `u` OR Enter       | Reveal cell under cursor   |
| Right click        | Place flag on clicked cell |
| `f` OR Backspace   | Place flag under cursor    |
| `q`                | Quit                       |
| `j` OR Arrow Down  | Move cursor down one cell  |
| `k` OR Arrow Up    | Move cursor up one cell    |
| `h` OR Arrow Left  | Move cursor left one cell  |
| `l` OR Arrow Right | Move cursor right one cell |
